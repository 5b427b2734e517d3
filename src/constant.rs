//! The textual encoding of a variable's constant initializer.
use vstd::prelude::*;
use vstd::string::*;

verus! {

/// A constant initializer, as far as its encoding distinguishes it. Each
/// textual payload is the constant's own display form.
pub enum ConstValue {
    Null,
    Prefab(String),
    Str(String),
    Resource(String),
    /// A number, held as its decimal text.
    Float(String),
    /// Any kind of constant that has no encoding.
    Unsupported,
}

/// `"` + text + `"`.
pub open spec fn quoted(t: Seq<char>) -> Seq<char> {
    seq!['"'] + t + seq!['"']
}

/// The encoding of an optional constant: `null`, a quoted form of the text of
/// a prefab, string or resource, the decimal text of a number, and the empty
/// sequence for no constant or an unsupported kind.
pub open spec fn const_encoding(c: Option<ConstValue>) -> Seq<char> {
    match c {
        Some(ConstValue::Null) => seq!['n', 'u', 'l', 'l'],
        Some(ConstValue::Prefab(t)) => quoted(t@),
        Some(ConstValue::Str(t)) => quoted(t@),
        Some(ConstValue::Resource(t)) => quoted(t@),
        Some(ConstValue::Float(t)) => t@,
        Some(ConstValue::Unsupported) => Seq::empty(),
        None => Seq::empty(),
    }
}

fn quote(t: &String) -> (r: String)
    ensures
        r@ == quoted(t@),
{
    let mut r = String::from_str("\"");
    r.append(t.as_str());
    r.append("\"");
    proof {
        reveal_strlit("\"");
    }
    r
}

/// Encodes an optional constant initializer.
pub fn encode_constant(c: &Option<ConstValue>) -> (r: String)
    ensures
        r@ == const_encoding(*c),
{
    match c {
        Some(ConstValue::Null) => {
            let r = String::from_str("null");
            proof {
                reveal_strlit("null");
            }
            r
        },
        Some(ConstValue::Prefab(t)) => quote(t),
        Some(ConstValue::Str(t)) => quote(t),
        Some(ConstValue::Resource(t)) => quote(t),
        Some(ConstValue::Float(t)) => t.clone(),
        Some(ConstValue::Unsupported) => String::new(),
        None => String::new(),
    }
}

} // verus!
