use vstd::prelude::*;

verus! {

/// One level of a JSON document: the kind of the value and its immediate
/// parts. What lies below stays JSON text and is read by a further call of
/// [`parse_json`].
#[derive(Debug, Clone, PartialEq, Eq)]
pub enum JsonShape {
    Null,
    Bool(bool),
    /// A number, as the text that spells it.
    Number(String),
    /// A string, unescaped.
    Text(String),
    /// An array: the JSON text of each element, in order.
    List(Vec<String>),
    /// An object: each key with the JSON text of its value.
    Object(Vec<(String, String)>),
}

/// The mathematical counterpart of [`JsonShape`].
pub enum JsonModel {
    Null,
    Bool(bool),
    Number(Seq<char>),
    Text(Seq<char>),
    List(Seq<Seq<char>>),
    Object(Seq<(Seq<char>, Seq<char>)>),
}

/// The members of an object as pairs of character sequences.
pub open spec fn members_view(members: Seq<(String, String)>) -> Seq<(Seq<char>, Seq<char>)> {
    members.map_values(|m: (String, String)| (m.0@, m.1@))
}

/// The elements of a list as character sequences.
pub open spec fn texts_view(texts: Seq<String>) -> Seq<Seq<char>> {
    texts.map_values(|t: String| t@)
}

impl View for JsonShape {
    type V = JsonModel;

    open spec fn view(&self) -> JsonModel {
        match self {
            JsonShape::Null => JsonModel::Null,
            JsonShape::Bool(b) => JsonModel::Bool(*b),
            JsonShape::Number(n) => JsonModel::Number(n@),
            JsonShape::Text(t) => JsonModel::Text(t@),
            JsonShape::List(l) => JsonModel::List(texts_view(l@)),
            JsonShape::Object(o) => JsonModel::Object(members_view(o@)),
        }
    }
}

/// `serde_json::Error`, taken as it comes and not looked into.
#[verifier::external_type_specification]
#[verifier::external_body]
pub struct ExJsonError(serde_json::Error);

/// The top level of the JSON document that `text` holds, if it holds one:
/// the kind of the value, and its parts as the JSON text that they are
/// printed back as.
pub uninterp spec fn json_document(text: Seq<char>) -> Option<JsonModel>;

/// Parses `text` with `serde_json::from_str` and hands out the top level
/// of the document; the elements of an array and the values of an object
/// are printed back as JSON text. Both steps are taken to depend on the
/// text alone: `json_document` names their result. An error means the
/// text is no JSON document.
#[verifier::external_body]
pub(crate) fn parse_json(text: &str) -> (r: Result<JsonShape, serde_json::Error>)
    ensures
        match r {
            Ok(shape) => json_document(text@) == Some(shape@),
            Err(_) => json_document(text@) is None,
        },
{
    Ok(match serde_json::from_str::<serde_json::Value>(text)? {
        serde_json::Value::Null => JsonShape::Null,
        serde_json::Value::Bool(b) => JsonShape::Bool(b),
        serde_json::Value::Number(n) => JsonShape::Number(n.to_string()),
        serde_json::Value::String(s) => JsonShape::Text(s),
        serde_json::Value::Array(a) => JsonShape::List(a.iter().map(|v| v.to_string()).collect()),
        serde_json::Value::Object(o) => JsonShape::Object(
            o.iter().map(|(k, v)| (k.clone(), v.to_string())).collect(),
        ),
    })
}

/// The text of the first member of `members` whose key is `key`.
pub open spec fn member_text(members: Seq<(Seq<char>, Seq<char>)>, key: Seq<char>) -> Option<
    Seq<char>,
>
    decreases members.len(),
{
    if members.len() == 0 {
        None
    } else if members[0].0 == key {
        Some(members[0].1)
    } else {
        member_text(members.skip(1), key)
    }
}

/// Looks a key up among the members of an object.
pub fn find_member<'a>(members: &'a Vec<(String, String)>, key: &str) -> (r: Option<&'a String>)
    ensures
        match r {
            Some(text) => member_text(members_view(members@), key@) == Some(text@),
            None => member_text(members_view(members@), key@) is None,
        },
{
    let wanted: String = key.to_owned();
    let ghost all = members_view(members@);
    let mut i: usize = 0;
    proof {
        assert(all.skip(0) =~= all);
    }
    while i < members.len()
        invariant
            i <= members.len(),
            all == members_view(members@),
            wanted@ == key@,
            member_text(all, key@) == member_text(all.skip(i as int), key@),
        decreases members.len() - i,
    {
        proof {
            assert(all.skip(i as int)[0] == all[i as int]);
            assert(all.skip(i as int).skip(1) =~= all.skip(i as int + 1));
        }
        if members[i].0 == wanted {
            return Some(&members[i].1);
        }
        i = i + 1;
    }
    None
}

} // verus!
