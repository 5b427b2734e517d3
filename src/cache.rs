//! The declaration identity cache: the in-process mapping from each
//! declaration's identity key to the id of its durable record.
//!
//! A lookup that misses here is answered from the durable store by the
//! caller, which then hands the record's id back with `remember_*`; only a
//! miss in both leads to an insert.
use vstd::prelude::*;
use vstd::string::*;
use crate::constant::{ConstValue, const_encoding, encode_constant};
use crate::paths::{canonical, canonical_type_path};
use crate::text::{joined, views, join_with};

verus! {

/// The identity key of a variable: its path, the canonical path of its
/// declared type if it has one, and the encoding of its constant.
pub struct VarKey {
    pub path: String,
    pub declared_type: Option<String>,
    pub const_val: String,
}

pub type VarKeyView = (Seq<char>, Option<Seq<char>>, Seq<char>);

impl View for VarKey {
    type V = VarKeyView;

    open spec fn view(&self) -> VarKeyView {
        (
            self.path@,
            match self.declared_type {
                Some(t) => Some(t@),
                None => None,
            },
            self.const_val@,
        )
    }
}

/// The key of a variable observed at `path`, whose declared type is given
/// by its path segments, and whose constant is `constant`.
pub open spec fn var_key_of(
    path: Seq<char>,
    declared: Option<Seq<Seq<char>>>,
    constant: Option<ConstValue>,
) -> VarKeyView {
    (
        path,
        match declared {
            Some(segs) => Some(canonical(joined(segs, seq!['/']))),
            None => None,
        },
        const_encoding(constant),
    )
}

/// A map after a get-or-insert of `k`: an existing entry is kept.
pub open spec fn remembered<K, V>(m: Map<K, V>, k: K, v: V) -> Map<K, V> {
    if m.contains_key(k) {
        m
    } else {
        m.insert(k, v)
    }
}

fn same_opt(a: &Option<String>, b: &Option<String>) -> (r: bool)
    ensures
        r == (match (a, b) {
            (Some(x), Some(y)) => x@ == y@,
            (None, None) => true,
            _ => false,
        }),
{
    match (a, b) {
        (Some(x), Some(y)) => *x == *y,
        (None, None) => true,
        _ => false,
    }
}

fn same_key(a: &VarKey, b: &VarKey) -> (r: bool)
    ensures
        r == (a@ == b@),
{
    let p = a.path == b.path;
    let d = same_opt(&a.declared_type, &b.declared_type);
    let c = a.const_val == b.const_val;
    proof {
        if p && d && c {
            assert(a@.1 == b@.1);
        }
    }
    p && d && c
}

fn clone_opt(a: &Option<String>) -> (r: Option<String>)
    ensures
        r == *a,
{
    match a {
        Some(x) => Some(x.clone()),
        None => None,
    }
}

/// Builds the identity key of a variable.
pub fn var_key(var_path: &str, declared: &Option<Vec<String>>, constant: &Option<ConstValue>) -> (r: VarKey)
    ensures
        r@ == var_key_of(
            var_path@,
            match declared {
                Some(segs) => Some(views(segs@)),
                None => None,
            },
            *constant,
        ),
{
    let declared_type = match declared {
        Some(segs) => {
            let joined_path = join_with(segs, "/");
            proof {
                reveal_strlit("/");
        assert("/"@ =~= seq!['/']);
            }
            assert(joined_path@ == joined(views(segs@), seq!['/']));
            Some(canonical_type_path(joined_path.as_str()))
        },
        None => None,
    };
    VarKey {
        path: String::from_str(var_path),
        declared_type,
        const_val: encode_constant(constant),
    }
}

/// Every row's key maps to its id, and every mapped key has a row.
spec fn table_wf(v: Seq<(String, i32)>, m: Map<Seq<char>, i32>) -> bool {
    &&& forall|i: int| 0 <= i < v.len() ==> {
        &&& #[trigger] m.contains_key(v[i].0@)
        &&& m[v[i].0@] == v[i].1
    }
    &&& forall|k: Seq<char>| #[trigger] m.contains_key(k) ==> exists|i: int|
        0 <= i < v.len() && #[trigger] v[i].0@ == k
}

spec fn var_table_wf(v: Seq<(VarKey, i32)>, m: Map<VarKeyView, i32>) -> bool {
    &&& forall|i: int| 0 <= i < v.len() ==> {
        &&& #[trigger] m.contains_key(v[i].0@)
        &&& m[v[i].0@] == v[i].1
    }
    &&& forall|k: VarKeyView| #[trigger] m.contains_key(k) ==> exists|i: int|
        0 <= i < v.len() && #[trigger] v[i].0@ == k
}

/// Remembering a key a second time, with any id, changes nothing: the id
/// of the first call stays the one that both calls return.
pub proof fn lemma_remember_idempotent<K, V>(m: Map<K, V>, k: K, first: V, second: V)
    ensures
        remembered(m, k, first).contains_key(k),
        remembered(remembered(m, k, first), k, second) == remembered(m, k, first),
        remembered(m, k, first)[k] == (if m.contains_key(k) { m[k] } else { first }),
        remembered(remembered(m, k, first), k, second)[k] == remembered(m, k, first)[k],
{
}

/// Two variable observations get the same key exactly when their paths,
/// their declared types (after canonicalization) and their constant
/// encodings are all equal.
pub proof fn lemma_var_key_identity(
    path_a: Seq<char>,
    decl_a: Option<Seq<Seq<char>>>,
    const_a: Option<ConstValue>,
    path_b: Seq<char>,
    decl_b: Option<Seq<Seq<char>>>,
    const_b: Option<ConstValue>,
)
    ensures
        (var_key_of(path_a, decl_a, const_a) == var_key_of(path_b, decl_b, const_b)) <==> {
            &&& path_a == path_b
            &&& var_key_of(path_a, decl_a, const_a).1 == var_key_of(path_b, decl_b, const_b).1
            &&& const_encoding(const_a) == const_encoding(const_b)
        },
{
}

/// Distinct variable keys remembered in turn keep two entries with their
/// own ids; the same key remembered twice keeps one entry.
pub proof fn lemma_distinct_var_keys_kept_apart(
    m: Map<VarKeyView, i32>,
    k1: VarKeyView,
    id1: i32,
    k2: VarKeyView,
    id2: i32,
)
    requires
        !m.contains_key(k1),
        !m.contains_key(k2),
    ensures
        k1 != k2 ==> {
            let r = remembered(remembered(m, k1, id1), k2, id2);
            &&& r[k1] == id1
            &&& r[k2] == id2
            &&& r.dom() == m.dom().insert(k1).insert(k2)
        },
        k1 == k2 ==> {
            let r = remembered(remembered(m, k1, id1), k2, id2);
            &&& r[k1] == id1
            &&& r.dom() == m.dom().insert(k1)
        },
{
    let r = remembered(remembered(m, k1, id1), k2, id2);
    assert(r.dom() =~= if k1 != k2 { m.dom().insert(k1).insert(k2) } else { m.dom().insert(k1) });
}

pub struct Cache {
    types: Vec<(String, i32)>,
    procs: Vec<(String, i32)>,
    vars: Vec<(VarKey, i32)>,
    type_ids: Ghost<Map<Seq<char>, i32>>,
    proc_ids: Ghost<Map<Seq<char>, i32>>,
    var_ids: Ghost<Map<VarKeyView, i32>>,
}

impl Cache {
    /// Canonical type path to TypeDecl id.
    pub closed spec fn types(&self) -> Map<Seq<char>, i32> {
        self.type_ids@
    }

    /// Procedure path to ProcDecl id.
    pub closed spec fn procs(&self) -> Map<Seq<char>, i32> {
        self.proc_ids@
    }

    /// Variable key to VarDecl id.
    pub closed spec fn vars(&self) -> Map<VarKeyView, i32> {
        self.var_ids@
    }

    pub closed spec fn wf(&self) -> bool {
        &&& table_wf(self.types@, self.type_ids@)
        &&& table_wf(self.procs@, self.proc_ids@)
        &&& var_table_wf(self.vars@, self.var_ids@)
    }

    /// An empty cache.
    pub fn new() -> (r: Self)
        ensures
            r.wf(),
            r.types() == Map::<Seq<char>, i32>::empty(),
            r.procs() == Map::<Seq<char>, i32>::empty(),
            r.vars() == Map::<VarKeyView, i32>::empty(),
    {
        Cache {
            types: Vec::new(),
            procs: Vec::new(),
            vars: Vec::new(),
            type_ids: Ghost(Map::empty()),
            proc_ids: Ghost(Map::empty()),
            var_ids: Ghost(Map::empty()),
        }
    }

    fn find_path(v: &Vec<(String, i32)>, path: &String) -> (r: Option<usize>)
        ensures
            r matches Some(i) ==> i < v@.len() && v@[i as int].0@ == path@,
            r is None ==> forall|i: int| 0 <= i < v@.len() ==> v@[i].0@ != path@,
    {
        let mut i: usize = 0;
        while i < v.len()
            invariant
                i <= v@.len(),
                forall|j: int| 0 <= j < i ==> v@[j].0@ != path@,
            decreases v.len() - i,
        {
            if v[i].0 == *path {
                return Some(i);
            }
            i = i + 1;
        }
        None
    }

    fn find_var(v: &Vec<(VarKey, i32)>, key: &VarKey) -> (r: Option<usize>)
        ensures
            r matches Some(i) ==> i < v@.len() && v@[i as int].0@ == key@,
            r is None ==> forall|i: int| 0 <= i < v@.len() ==> v@[i].0@ != key@,
    {
        let mut i: usize = 0;
        while i < v.len()
            invariant
                i <= v@.len(),
                forall|j: int| 0 <= j < i ==> v@[j].0@ != key@,
            decreases v.len() - i,
        {
            if same_key(&v[i].0, key) {
                return Some(i);
            }
            i = i + 1;
        }
        None
    }

    /// The cached TypeDecl id of a type path, after canonicalization.
    pub fn get_type(&self, type_path: &str) -> (r: Option<i32>)
        requires
            self.wf(),
        ensures
            r == self.types().get(canonical(type_path@)),
    {
        let path = canonical_type_path(type_path);
        match Self::find_path(&self.types, &path) {
            Some(i) => Some(self.types[i].1),
            None => {
                assert(!self.type_ids@.contains_key(path@));
                None
            },
        }
    }

    /// Records the TypeDecl id of a type path, after canonicalization, unless
    /// one is cached already; returns the id that is cached afterwards.
    pub fn remember_type(&mut self, type_path: &str, id: i32) -> (r: i32)
        requires
            old(self).wf(),
        ensures
            final(self).wf(),
            final(self).types() == remembered(old(self).types(), canonical(type_path@), id),
            final(self).procs() == old(self).procs(),
            final(self).vars() == old(self).vars(),
            r == final(self).types()[canonical(type_path@)],
    {
        let path = canonical_type_path(type_path);
        match Self::find_path(&self.types, &path) {
            Some(i) => {
                assert(self.type_ids@.contains_key(self.types@[i as int].0@));
                self.types[i].1
            },
            None => {
                assert(!self.type_ids@.contains_key(path@));
                let ghost k = path@;
                self.types.push((path, id));
                self.type_ids = Ghost(self.type_ids@.insert(k, id));
                assert forall|q: Seq<char>| #[trigger] self.type_ids@.contains_key(q) implies exists|i: int|
                    0 <= i < self.types@.len() && #[trigger] self.types@[i].0@ == q by {
                    if q == k {
                        assert(self.types@[self.types@.len() - 1].0@ == q);
                    } else {
                        let j = choose|j: int| 0 <= j < old(self).types@.len() && #[trigger] old(self).types@[j].0@ == q;
                        assert(self.types@[j].0@ == q);
                    }
                }
                assert forall|i: int| 0 <= i < self.types@.len() implies {
                    &&& #[trigger] self.type_ids@.contains_key(self.types@[i].0@)
                    &&& self.type_ids@[self.types@[i].0@] == self.types@[i].1
                } by {
                    if i < old(self).types@.len() {
                        assert(old(self).types@[i] == self.types@[i]);
                        assert(old(self).type_ids@.contains_key(old(self).types@[i].0@));
                    }
                }
                id
            },
        }
    }

    /// The cached ProcDecl id of a procedure path.
    pub fn get_proc(&self, path: &str) -> (r: Option<i32>)
        requires
            self.wf(),
        ensures
            r == self.procs().get(path@),
    {
        let path = String::from_str(path);
        match Self::find_path(&self.procs, &path) {
            Some(i) => Some(self.procs[i].1),
            None => {
                assert(!self.proc_ids@.contains_key(path@));
                None
            },
        }
    }

    /// Records the ProcDecl id of a procedure path unless one is cached
    /// already; returns the id that is cached afterwards.
    pub fn remember_proc(&mut self, path: &str, id: i32) -> (r: i32)
        requires
            old(self).wf(),
        ensures
            final(self).wf(),
            final(self).procs() == remembered(old(self).procs(), path@, id),
            final(self).types() == old(self).types(),
            final(self).vars() == old(self).vars(),
            r == final(self).procs()[path@],
    {
        let path = String::from_str(path);
        match Self::find_path(&self.procs, &path) {
            Some(i) => {
                assert(self.proc_ids@.contains_key(self.procs@[i as int].0@));
                self.procs[i].1
            },
            None => {
                assert(!self.proc_ids@.contains_key(path@));
                let ghost k = path@;
                self.procs.push((path, id));
                self.proc_ids = Ghost(self.proc_ids@.insert(k, id));
                assert forall|q: Seq<char>| #[trigger] self.proc_ids@.contains_key(q) implies exists|i: int|
                    0 <= i < self.procs@.len() && #[trigger] self.procs@[i].0@ == q by {
                    if q == k {
                        assert(self.procs@[self.procs@.len() - 1].0@ == q);
                    } else {
                        let j = choose|j: int| 0 <= j < old(self).procs@.len() && #[trigger] old(self).procs@[j].0@ == q;
                        assert(self.procs@[j].0@ == q);
                    }
                }
                assert forall|i: int| 0 <= i < self.procs@.len() implies {
                    &&& #[trigger] self.proc_ids@.contains_key(self.procs@[i].0@)
                    &&& self.proc_ids@[self.procs@[i].0@] == self.procs@[i].1
                } by {
                    if i < old(self).procs@.len() {
                        assert(old(self).procs@[i] == self.procs@[i]);
                        assert(old(self).proc_ids@.contains_key(old(self).procs@[i].0@));
                    }
                }
                id
            },
        }
    }

    /// The cached VarDecl id of a variable key.
    pub fn get_var_decl(&self, key: &VarKey) -> (r: Option<i32>)
        requires
            self.wf(),
        ensures
            r == self.vars().get(key@),
    {
        match Self::find_var(&self.vars, key) {
            Some(i) => Some(self.vars[i].1),
            None => {
                assert(!self.var_ids@.contains_key(key@));
                None
            },
        }
    }

    /// Records the VarDecl id of a variable key unless one is cached already;
    /// returns the id that is cached afterwards.
    pub fn remember_var(&mut self, key: VarKey, id: i32) -> (r: i32)
        requires
            old(self).wf(),
        ensures
            final(self).wf(),
            final(self).vars() == remembered(old(self).vars(), key@, id),
            final(self).types() == old(self).types(),
            final(self).procs() == old(self).procs(),
            r == final(self).vars()[key@],
    {
        match Self::find_var(&self.vars, &key) {
            Some(i) => {
                assert(self.var_ids@.contains_key(self.vars@[i as int].0@));
                self.vars[i].1
            },
            None => {
                assert(!self.var_ids@.contains_key(key@));
                let ghost k = key@;
                self.vars.push((key, id));
                self.var_ids = Ghost(self.var_ids@.insert(k, id));
                assert forall|q: VarKeyView| #[trigger] self.var_ids@.contains_key(q) implies exists|i: int|
                    0 <= i < self.vars@.len() && #[trigger] self.vars@[i].0@ == q by {
                    if q == k {
                        assert(self.vars@[self.vars@.len() - 1].0@ == q);
                    } else {
                        let j = choose|j: int| 0 <= j < old(self).vars@.len() && #[trigger] old(self).vars@[j].0@ == q;
                        assert(self.vars@[j].0@ == q);
                    }
                }
                assert forall|i: int| 0 <= i < self.vars@.len() implies {
                    &&& #[trigger] self.var_ids@.contains_key(self.vars@[i].0@)
                    &&& self.var_ids@[self.vars@[i].0@] == self.vars@[i].1
                } by {
                    if i < old(self).vars@.len() {
                        assert(old(self).vars@[i] == self.vars@[i]);
                        assert(old(self).var_ids@.contains_key(old(self).vars@[i].0@));
                    }
                }
                id
            },
        }
    }
}

} // verus!
