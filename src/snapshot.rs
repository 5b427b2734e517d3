//! The link sets of one snapshot, and the identity keys a parsed
//! declaration tree asks to be resolved.
use vstd::prelude::*;
use crate::cache::{VarKey, VarKeyView, var_key, var_key_of};
use crate::constant::ConstValue;
use crate::paths::{canonical, member_of, canonical_type_path, member_path};
use crate::text::views;

verus! {

/// Why a link could not be added.
#[derive(Debug, Clone, Copy, PartialEq, Eq, Structural)]
pub enum LinkError {
    /// The declaration is linked to this snapshot already.
    Duplicate,
}

/// A sequence with `id` added at the end unless it already holds it.
pub open spec fn with_link(s: Seq<i32>, id: i32) -> Seq<i32> {
    if s.contains(id) {
        s
    } else {
        s.push(id)
    }
}

/// Adding the same link a second time changes nothing, and a sequence
/// without repeats stays without repeats.
pub proof fn lemma_link_idempotent(s: Seq<i32>, id: i32)
    requires
        s.no_duplicates(),
    ensures
        with_link(with_link(s, id), id) == with_link(s, id),
        with_link(s, id).no_duplicates(),
        with_link(s, id).contains(id),
        with_link(s, id).to_set() == s.to_set().insert(id),
{
    let t = with_link(s, id);
    assert(t.contains(id)) by {
        if !s.contains(id) {
            assert(t[t.len() - 1] == id);
        }
    }
    assert(t.to_set() =~= s.to_set().insert(id)) by {
        if !s.contains(id) {
            assert forall|x: i32| t.to_set().contains(x) <==> s.to_set().insert(id).contains(x) by {
                if s.contains(x) {
                    let j = choose|j: int| 0 <= j < s.len() && s[j] == x;
                    assert(t[j] == x);
                }
                if t.contains(x) {
                    let j = choose|j: int| 0 <= j < t.len() && t[j] == x;
                    if j < s.len() {
                        assert(s[j] == x);
                    }
                }
            }
        }
    }
}

/// The declarations linked to one snapshot, each kind in the order first
/// linked, none twice.
pub struct SnapshotLinks {
    types: Vec<i32>,
    procs: Vec<i32>,
    vars: Vec<i32>,
}

impl SnapshotLinks {
    pub closed spec fn type_links(&self) -> Seq<i32> {
        self.types@
    }

    pub closed spec fn proc_links(&self) -> Seq<i32> {
        self.procs@
    }

    pub closed spec fn var_links(&self) -> Seq<i32> {
        self.vars@
    }

    pub open spec fn wf(&self) -> bool {
        &&& self.type_links().no_duplicates()
        &&& self.proc_links().no_duplicates()
        &&& self.var_links().no_duplicates()
    }

    /// A snapshot with no links.
    pub fn new() -> (r: Self)
        ensures
            r.wf(),
            r.type_links() == Seq::<i32>::empty(),
            r.proc_links() == Seq::<i32>::empty(),
            r.var_links() == Seq::<i32>::empty(),
    {
        SnapshotLinks { types: Vec::new(), procs: Vec::new(), vars: Vec::new() }
    }

    fn holds(v: &Vec<i32>, id: i32) -> (r: bool)
        ensures
            r == v@.contains(id),
    {
        let mut i: usize = 0;
        while i < v.len()
            invariant
                i <= v@.len(),
                forall|j: int| 0 <= j < i ==> v@[j] != id,
            decreases v.len() - i,
        {
            if v[i] == id {
                return true;
            }
            i = i + 1;
        }
        false
    }

    /// Links a TypeDecl; linking one twice is an error and changes nothing.
    pub fn link_type(&mut self, id: i32) -> (r: Result<(), LinkError>)
        requires
            old(self).wf(),
        ensures
            final(self).wf(),
            r is Err <==> old(self).type_links().contains(id),
            final(self).type_links() == with_link(old(self).type_links(), id),
            final(self).proc_links() == old(self).proc_links(),
            final(self).var_links() == old(self).var_links(),
    {
        if Self::holds(&self.types, id) {
            return Err(LinkError::Duplicate);
        }
        self.types.push(id);
        Ok(())
    }

    /// Links a ProcDecl; linking one again is accepted and changes nothing.
    pub fn link_proc(&mut self, id: i32)
        requires
            old(self).wf(),
        ensures
            final(self).wf(),
            final(self).proc_links() == with_link(old(self).proc_links(), id),
            final(self).type_links() == old(self).type_links(),
            final(self).var_links() == old(self).var_links(),
    {
        if !Self::holds(&self.procs, id) {
            self.procs.push(id);
        }
    }

    /// Links a VarDecl; linking one twice is an error and changes nothing.
    pub fn link_var(&mut self, id: i32) -> (r: Result<(), LinkError>)
        requires
            old(self).wf(),
        ensures
            final(self).wf(),
            r is Err <==> old(self).var_links().contains(id),
            final(self).var_links() == with_link(old(self).var_links(), id),
            final(self).type_links() == old(self).type_links(),
            final(self).proc_links() == old(self).proc_links(),
    {
        if Self::holds(&self.vars, id) {
            return Err(LinkError::Duplicate);
        }
        self.vars.push(id);
        Ok(())
    }

    /// The linked TypeDecl ids.
    pub fn type_ids(&self) -> (r: &Vec<i32>)
        ensures
            r@ == self.type_links(),
    {
        &self.types
    }

    /// The linked ProcDecl ids.
    pub fn proc_ids(&self) -> (r: &Vec<i32>)
        ensures
            r@ == self.proc_links(),
    {
        &self.procs
    }

    /// The linked VarDecl ids.
    pub fn var_ids(&self) -> (r: &Vec<i32>)
        ensures
            r@ == self.var_links(),
    {
        &self.vars
    }
}

/// A variable of a parsed type: its name, the path segments of its declared
/// type if it has one, and its constant initializer.
pub struct VarObservation {
    pub name: String,
    pub declared_type: Option<Vec<String>>,
    pub constant: Option<ConstValue>,
}

/// One type of a parsed declaration tree: its path and the names of its
/// procedures and variables, in the tree's own order.
pub struct TypeObservation {
    pub path: String,
    pub procs: Vec<String>,
    pub vars: Vec<VarObservation>,
}

/// The identity keys that one type of a parsed tree asks to be resolved:
/// its canonical path, the path of each procedure, the key of each variable.
pub struct TypePlan {
    pub type_path: String,
    pub proc_paths: Vec<String>,
    pub var_keys: Vec<VarKey>,
}

pub open spec fn var_obs_key(owner: Seq<char>, v: VarObservation) -> VarKeyView {
    var_key_of(
        member_of(owner, v.name@),
        match v.declared_type {
            Some(segs) => Some(views(segs@)),
            None => None,
        },
        v.constant,
    )
}

/// Lists the identity keys of one parsed type. Member paths are formed
/// from the type's path as the tree gives it.
pub fn plan_type(t: &TypeObservation) -> (r: TypePlan)
    ensures
        r.type_path@ == canonical(t.path@),
        r.proc_paths@.len() == t.procs@.len(),
        forall|i: int| 0 <= i < t.procs@.len() ==> #[trigger] r.proc_paths@[i]@ == member_of(
            t.path@,
            t.procs@[i]@,
        ),
        r.var_keys@.len() == t.vars@.len(),
        forall|i: int| 0 <= i < t.vars@.len() ==> #[trigger] r.var_keys@[i]@ == var_obs_key(
            t.path@,
            t.vars@[i],
        ),
{
    let type_path = canonical_type_path(t.path.as_str());
    let mut proc_paths: Vec<String> = Vec::new();
    let mut i: usize = 0;
    while i < t.procs.len()
        invariant
            i <= t.procs@.len(),
            proc_paths@.len() == i,
            forall|j: int| 0 <= j < i ==> #[trigger] proc_paths@[j]@ == member_of(
                t.path@,
                t.procs@[j]@,
            ),
        decreases t.procs.len() - i,
    {
        proc_paths.push(member_path(t.path.as_str(), t.procs[i].as_str()));
        i = i + 1;
    }
    let mut var_keys: Vec<VarKey> = Vec::new();
    let mut k: usize = 0;
    while k < t.vars.len()
        invariant
            k <= t.vars@.len(),
            var_keys@.len() == k,
            forall|j: int| 0 <= j < k ==> #[trigger] var_keys@[j]@ == var_obs_key(
                t.path@,
                t.vars@[j],
            ),
        decreases t.vars.len() - k,
    {
        let v = &t.vars[k];
        let p = member_path(t.path.as_str(), v.name.as_str());
        var_keys.push(var_key(p.as_str(), &v.declared_type, &v.constant));
        k = k + 1;
    }
    TypePlan { type_path, proc_paths, var_keys }
}

} // verus!
