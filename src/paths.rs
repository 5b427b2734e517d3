//! Canonical forms of declaration paths.
use vstd::prelude::*;
use vstd::string::*;

verus! {

/// The root separator that every canonical type path starts with.
pub open spec fn root_sep() -> Seq<char> {
    seq!['/']
}

/// A path is canonical when it starts with the root separator.
pub open spec fn is_canonical(p: Seq<char>) -> bool {
    p.len() > 0 && p[0] == '/'
}

/// The canonical form of a type path: the root separator is prepended when
/// the path does not already start with it.
pub open spec fn canonical(p: Seq<char>) -> Seq<char> {
    if is_canonical(p) {
        p
    } else {
        root_sep() + p
    }
}

/// The path of a member (procedure or variable) `name` of the type `owner`.
pub open spec fn member_of(owner: Seq<char>, name: Seq<char>) -> Seq<char> {
    owner + root_sep() + name
}

/// Canonicalizes a type path.
pub fn canonical_type_path(type_path: &str) -> (r: String)
    ensures
        r@ == canonical(type_path@),
        is_canonical(r@),
{
    let n = type_path.unicode_len();
    if n > 0 && type_path.get_char(0) == '/' {
        String::from_str(type_path)
    } else {
        let mut r = String::from_str("/");
        r.append(type_path);
        proof {
            reveal_strlit("/");
        }
        assert(r@ == root_sep() + type_path@);
        r
    }
}

/// Joins an owning type path and a member name with the separator.
pub fn member_path(owner: &str, name: &str) -> (r: String)
    ensures
        r@ == member_of(owner@, name@),
{
    let mut r = String::from_str(owner);
    r.append("/");
    r.append(name);
    proof {
        reveal_strlit("/");
    }
    r
}

/// Canonicalizing twice changes nothing.
pub proof fn lemma_canonical_idempotent(p: Seq<char>)
    ensures
        canonical(canonical(p)) == canonical(p),
        is_canonical(canonical(p)),
{
}

/// A relative type path and the same path written from the root resolve to
/// one canonical key.
pub proof fn lemma_relative_and_rooted_collapse(p: Seq<char>)
    requires
        !is_canonical(p),
    ensures
        canonical(p) == canonical(root_sep() + p),
{
}

} // verus!
