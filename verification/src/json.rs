//! The JSON document that holds the keys and values under one predefined key.
//!
//! An object is a list of named entries; a registry key is an object, and a value is an
//! object with the entries `value` and `vtype`. Lookups take the first entry of a name.
use vstd::prelude::*;

verus! {

/// A JSON value of `serde_json`, carried through unread.
#[verifier::external_type_specification]
#[verifier::external_body]
pub struct ExJsonValue(serde_json::Value);

/// A node of the document: an object, a string, or any other JSON value, which the
/// registry only carries.
#[derive(Debug, PartialEq)]
pub enum Json {
    Object(Vec<(String, Json)>),
    Str(String),
    Other(serde_json::Value),
}

/// What the registry can tell of a node without its children.
pub enum Kind {
    Object,
    Str(Seq<char>),
    Other(serde_json::Value),
}

/// Why a walk down a path of names stops.
pub enum Failure {
    SubkeyNotFound(Seq<char>),
    NotAnObject,
    ValueNotFound(Seq<char>),
}

/// The errors of registry requests.
#[derive(Debug, Clone, PartialEq)]
pub enum RegError {
    /// No entry of this name on the way to a key.
    SubkeyNotFound(String),
    /// An entry on the way to a key is not an object.
    NotAnObject,
    /// The key has no value of this name.
    ValueNotFound(String),
}

impl View for RegError {
    type V = Failure;

    open spec fn view(&self) -> Failure {
        match self {
            RegError::SubkeyNotFound(s) => Failure::SubkeyNotFound(s@),
            RegError::NotAnObject => Failure::NotAnObject,
            RegError::ValueNotFound(s) => Failure::ValueNotFound(s@),
        }
    }
}

/// The names of a list of strings.
pub open spec fn names(v: Seq<String>) -> Seq<Seq<char>> {
    v.map_values(|s: String| s@)
}

/// `i` is the position of the first entry named `key`.
pub open spec fn is_first_key(entries: Seq<(String, Json)>, key: Seq<char>, i: int) -> bool {
    &&& 0 <= i < entries.len()
    &&& entries[i].0@ == key
    &&& forall|j: int| 0 <= j < i ==> entries[j].0@ != key
}

/// Some entry is named `key`.
pub open spec fn has_key(entries: Seq<(String, Json)>, key: Seq<char>) -> bool {
    exists|i: int| is_first_key(entries, key, i)
}

/// The position of the first entry named `key`.
pub open spec fn key_pos(entries: Seq<(String, Json)>, key: Seq<char>) -> int {
    choose|i: int| is_first_key(entries, key, i)
}

/// The node of the first entry named `key`.
pub open spec fn get(entries: Seq<(String, Json)>, key: Seq<char>) -> Option<Json> {
    if has_key(entries, key) {
        Some(entries[key_pos(entries, key)].1)
    } else {
        None
    }
}

/// The entries after setting the node of `key`: the first entry of that name gets the node,
/// and where there is none an entry is added at the end.
pub open spec fn put(entries: Seq<(String, Json)>, key: String, node: Json) -> Seq<(String, Json)> {
    if has_key(entries, key@) {
        let i = key_pos(entries, key@);
        entries.update(i, (entries[i].0, node))
    } else {
        entries.push((key, node))
    }
}

/// No two entries share a name.
pub open spec fn distinct_keys(entries: Seq<(String, Json)>) -> bool {
    forall|i: int, j: int| 0 <= i < j < entries.len() ==> entries[i].0@ != entries[j].0@
}

/// The object reached from `entries` by following `path`, or why it cannot be reached.
pub open spec fn walk(entries: Seq<(String, Json)>, path: Seq<Seq<char>>) -> Result<
    Seq<(String, Json)>,
    Failure,
>
    decreases path.len(),
{
    if path.len() == 0 {
        Ok(entries)
    } else {
        match get(entries, path[0]) {
            None => Err(Failure::SubkeyNotFound(path[0])),
            Some(Json::Object(c)) => walk(c@, path.drop_first()),
            Some(_) => Err(Failure::NotAnObject),
        }
    }
}

/// Every object reachable from `entries` has distinct names.
pub open spec fn wf(entries: Seq<(String, Json)>) -> bool {
    forall|p: Seq<Seq<char>>| #[trigger] walk(entries, p) is Ok ==> distinct_keys(walk(entries, p)->Ok_0)
}

pub open spec fn kind_of(node: Json) -> Kind {
    match node {
        Json::Object(_) => Kind::Object,
        Json::Str(s) => Kind::Str(s@),
        Json::Other(v) => Kind::Other(v),
    }
}

/// The kind of the node at `path` below the object `entries`, if there is one.
pub open spec fn kind_at(entries: Seq<(String, Json)>, path: Seq<Seq<char>>) -> Option<Kind>
    decreases path.len(),
{
    if path.len() == 0 {
        Some(Kind::Object)
    } else {
        match get(entries, path[0]) {
            None => None,
            Some(node) => if path.len() == 1 {
                Some(kind_of(node))
            } else {
                match node {
                    Json::Object(c) => kind_at(c@, path.drop_first()),
                    _ => None,
                }
            },
        }
    }
}

/// The kind of the node at `path` below `node`.
pub open spec fn kind_in(node: Json, path: Seq<Seq<char>>) -> Option<Kind> {
    match node {
        Json::Object(c) => kind_at(c@, path),
        _ => if path.len() == 0 {
            Some(kind_of(node))
        } else {
            None
        },
    }
}

/// The first entry of a name is unique.
pub proof fn lemma_first_key_unique(entries: Seq<(String, Json)>, key: Seq<char>, i: int, j: int)
    requires
        is_first_key(entries, key, i),
        is_first_key(entries, key, j),
    ensures
        i == j,
{
}

/// An entry of a name makes a first entry of that name.
pub proof fn lemma_has_key(entries: Seq<(String, Json)>, key: Seq<char>, i: int)
    requires
        0 <= i < entries.len(),
        entries[i].0@ == key,
    ensures
        has_key(entries, key),
    decreases i,
{
    if forall|j: int| 0 <= j < i ==> entries[j].0@ != key {
        assert(is_first_key(entries, key, i));
    } else {
        let j = choose|j: int| 0 <= j < i && entries[j].0@ == key;
        lemma_has_key(entries, key, j);
    }
}

/// Reading a name after `put`.
pub proof fn lemma_get_put(entries: Seq<(String, Json)>, key: String, node: Json, k: Seq<char>)
    ensures
        get(put(entries, key, node), k) == if k == key@ {
            Some(node)
        } else {
            get(entries, k)
        },
{
    let e2 = put(entries, key, node);
    if has_key(entries, key@) {
        let i = key_pos(entries, key@);
        assert(forall|j: int| 0 <= j < e2.len() ==> #[trigger] e2[j].0@ == entries[j].0@);
        if k == key@ {
            assert(is_first_key(e2, k, i));
            lemma_first_key_unique(e2, k, i, key_pos(e2, k));
        } else if has_key(entries, k) {
            let m = key_pos(entries, k);
            assert(is_first_key(e2, k, m));
            lemma_first_key_unique(e2, k, m, key_pos(e2, k));
        } else if has_key(e2, k) {
            let m = key_pos(e2, k);
            assert(is_first_key(e2, k, m));
            assert forall|j: int| 0 <= j < m implies entries[j].0@ != k by {
                assert(e2[j].0@ == entries[j].0@);
            }
            assert(e2[m].0@ == entries[m].0@);
            assert(is_first_key(entries, k, m));
        }
    } else {
        let n = entries.len() as int;
        assert forall|j: int| 0 <= j < n implies entries[j].0@ != key@ by {
            if entries[j].0@ == key@ {
                lemma_has_key(entries, key@, j);
            }
        }
        assert(forall|j: int| 0 <= j < n ==> #[trigger] e2[j] == entries[j]);
        if k == key@ {
            assert(is_first_key(e2, k, n));
            lemma_first_key_unique(e2, k, n, key_pos(e2, k));
        } else if has_key(entries, k) {
            let m = key_pos(entries, k);
            assert(is_first_key(e2, k, m));
            lemma_first_key_unique(e2, k, m, key_pos(e2, k));
        } else if has_key(e2, k) {
            let m = key_pos(e2, k);
            assert(is_first_key(e2, k, m));
            assert(m != n);
            assert(e2[m] == entries[m]);
            assert forall|j: int| 0 <= j < m implies entries[j].0@ != k by {
                assert(e2[j] == entries[j]);
            }
            assert(is_first_key(entries, k, m));
        }
    }
}

/// `put` keeps names distinct.
pub proof fn lemma_put_distinct(entries: Seq<(String, Json)>, key: String, node: Json)
    requires
        distinct_keys(entries),
    ensures
        distinct_keys(put(entries, key, node)),
{
    if !has_key(entries, key@) {
        assert forall|i: int| 0 <= i < entries.len() implies entries[i].0@ != key@ by {
            if entries[i].0@ == key@ {
                lemma_has_key(entries, key@, i);
            }
        }
    }
}

/// The kind at `path` once `node` stands at `target`: below `target` the kinds of `node`,
/// elsewhere those of `entries`.
pub open spec fn placed(
    entries: Seq<(String, Json)>,
    target: Seq<Seq<char>>,
    node: Json,
    path: Seq<Seq<char>>,
) -> Option<Kind> {
    if target.is_prefix_of(path) {
        kind_in(node, path.skip(target.len() as int))
    } else {
        kind_at(entries, path)
    }
}

/// The kind at `path` once every object on the way to `target` exists: an object on that
/// way, elsewhere the kind in `entries`.
pub open spec fn opened(entries: Seq<(String, Json)>, target: Seq<Seq<char>>, path: Seq<Seq<char>>) -> Option<
    Kind,
> {
    if path.is_prefix_of(target) {
        Some(Kind::Object)
    } else {
        kind_at(entries, path)
    }
}

/// Every object on the way to `path` exists or can be made: no node on that way is
/// anything but an object.
pub open spec fn creatable(entries: Seq<(String, Json)>, path: Seq<Seq<char>>) -> bool
    decreases path.len(),
{
    path.len() == 0 || match get(entries, path[0]) {
        None => true,
        Some(Json::Object(c)) => creatable(c@, path.drop_first()),
        Some(_) => false,
    }
}

/// A node whose objects all have distinct names.
pub open spec fn node_wf(node: Json) -> bool {
    match node {
        Json::Object(c) => wf(c@),
        _ => true,
    }
}

/// The kind below a nonempty path, one step at a time.
pub proof fn lemma_kind_at_step(entries: Seq<(String, Json)>, path: Seq<Seq<char>>)
    requires
        path.len() > 0,
    ensures
        kind_at(entries, path) == match get(entries, path[0]) {
            None => None,
            Some(node) => kind_in(node, path.drop_first()),
        },
{
}

/// A walk ends at an object exactly where the kind there is an object.
pub proof fn lemma_walk_kind(entries: Seq<(String, Json)>, path: Seq<Seq<char>>)
    ensures
        walk(entries, path) is Ok <==> kind_at(entries, path) == Some(Kind::Object),
    decreases path.len(),
{
    if path.len() > 0 {
        match get(entries, path[0]) {
            Some(Json::Object(c)) => {
                lemma_walk_kind(c@, path.drop_first());
            },
            _ => {},
        }
    }
}

/// Below the object a walk reaches, kinds are those seen from the top.
pub proof fn lemma_walk_then_kind(
    entries: Seq<(String, Json)>,
    path: Seq<Seq<char>>,
    rest: Seq<Seq<char>>,
)
    requires
        walk(entries, path) is Ok,
    ensures
        kind_at(entries, path + rest) == kind_at(walk(entries, path)->Ok_0, rest),
    decreases path.len(),
{
    if path.len() > 0 {
        let c = get(entries, path[0])->0->Object_0;
        assert((path + rest)[0] == path[0]);
        assert((path + rest).drop_first() =~= path.drop_first() + rest);
        lemma_walk_then_kind(c@, path.drop_first(), rest);
        if rest.len() == 0 {
            assert(path + rest =~= path);
            lemma_walk_kind(entries, path);
        }
    } else {
        assert(path + rest =~= rest);
    }
}

/// Where every node on the way is an object, more objects can be made there.
pub proof fn lemma_object_creatable(entries: Seq<(String, Json)>, path: Seq<Seq<char>>)
    requires
        kind_at(entries, path) == Some(Kind::Object),
    ensures
        creatable(entries, path),
    decreases path.len(),
{
    lemma_walk_kind(entries, path);
    if path.len() > 0 {
        let c = get(entries, path[0])->0->Object_0;
        lemma_walk_kind(c@, path.drop_first());
        lemma_object_creatable(c@, path.drop_first());
    }
}

/// A path with a node below it names an object.
pub proof fn lemma_kind_prefix(entries: Seq<(String, Json)>, p: Seq<Seq<char>>, q: Seq<Seq<char>>)
    requires
        kind_at(entries, p) is Some,
        q.is_prefix_of(p),
        q.len() < p.len(),
    ensures
        kind_at(entries, q) == Some(Kind::Object),
    decreases q.len(),
{
    if q.len() > 0 {
        assert(q[0] == p.subrange(0, q.len() as int)[0]);
        lemma_kind_at_step(entries, p);
        lemma_kind_at_step(entries, q);
        let c = get(entries, p[0])->0->Object_0;
        let pr = p.drop_first();
        let qr = q.drop_first();
        assert(qr =~= pr.subrange(0, qr.len() as int)) by {
            assert forall|i: int| 0 <= i < qr.len() implies qr[i] == pr[i] by {
                assert(q[i + 1] == p.subrange(0, q.len() as int)[i + 1]);
            }
        }
        lemma_kind_prefix(c@, pr, qr);
    }
}

/// On a path that can be created, every node that exists is an object.
pub proof fn lemma_creatable_prefix(entries: Seq<(String, Json)>, p: Seq<Seq<char>>, q: Seq<Seq<char>>)
    requires
        creatable(entries, p),
        q.is_prefix_of(p),
        kind_at(entries, q) is Some,
    ensures
        kind_at(entries, q) == Some(Kind::Object),
    decreases q.len(),
{
    if q.len() > 0 {
        assert(q[0] == p.subrange(0, q.len() as int)[0]);
        lemma_kind_at_step(entries, q);
        let c = get(entries, p[0])->0->Object_0;
        let pr = p.drop_first();
        let qr = q.drop_first();
        assert(qr =~= pr.subrange(0, qr.len() as int)) by {
            assert forall|i: int| 0 <= i < qr.len() implies qr[i] == pr[i] by {
                assert(q[i + 1] == p.subrange(0, q.len() as int)[i + 1]);
            }
        }
        lemma_creatable_prefix(c@, pr, qr);
    }
}

/// Kinds after `put`: below the name, those of the new node; elsewhere unchanged.
pub proof fn lemma_kind_put(entries: Seq<(String, Json)>, key: String, node: Json, path: Seq<Seq<char>>)
    ensures
        kind_at(put(entries, key, node), path) == if path.len() > 0 && path[0] == key@ {
            kind_in(node, path.drop_first())
        } else {
            kind_at(entries, path)
        },
{
    if path.len() > 0 {
        lemma_get_put(entries, key, node, path[0]);
        lemma_kind_at_step(entries, path);
        lemma_kind_at_step(put(entries, key, node), path);
    }
}

/// Walks after `put`: below the name, walks in the new node; elsewhere unchanged.
pub proof fn lemma_walk_put(entries: Seq<(String, Json)>, key: String, node: Json, path: Seq<Seq<char>>)
    requires
        path.len() > 0,
    ensures
        walk(put(entries, key, node), path) == if path.len() > 0 && path[0] == key@ {
            match node {
                Json::Object(c) => walk(c@, path.drop_first()),
                _ => Err(Failure::NotAnObject),
            }
        } else {
            walk(entries, path)
        },
{
    lemma_get_put(entries, key, node, path[0]);
}

/// The objects below an object entry are objects reachable from the top.
pub proof fn lemma_wf_child(entries: Seq<(String, Json)>, key: Seq<char>, c: Vec<(String, Json)>)
    requires
        wf(entries),
        get(entries, key) == Some(Json::Object(c)),
    ensures
        wf(c@),
{
    assert forall|p: Seq<Seq<char>>| #[trigger] walk(c@, p) is Ok implies distinct_keys(
        walk(c@, p)->Ok_0,
    ) by {
        let q = seq![key] + p;
        assert(q[0] == key);
        assert(q.drop_first() =~= p);
        assert(walk(entries, q) == walk(c@, p));
    }
}

/// Setting a name to an object keeps names distinct if they were and the object's are.
pub proof fn lemma_wf_put(entries: Seq<(String, Json)>, key: String, c: Vec<(String, Json)>)
    requires
        wf(entries),
        wf(c@),
    ensures
        wf(put(entries, key, Json::Object(c))),
{
    let e2 = put(entries, key, Json::Object(c));
    assert forall|p: Seq<Seq<char>>| #[trigger] walk(e2, p) is Ok implies distinct_keys(
        walk(e2, p)->Ok_0,
    ) by {
        if p.len() == 0 {
            assert(walk(entries, p) is Ok);
            lemma_put_distinct(entries, key, Json::Object(c));
        } else if p[0] == key@ {
            lemma_walk_put(entries, key, Json::Object(c), p);
            assert(walk(c@, p.drop_first()) is Ok);
        } else {
            lemma_walk_put(entries, key, Json::Object(c), p);
            assert(walk(entries, p) is Ok);
        }
    }
}

/// Setting a name keeps names distinct if they were and the node's are.
pub proof fn lemma_wf_put_node(entries: Seq<(String, Json)>, key: String, node: Json)
    requires
        wf(entries),
        node_wf(node),
    ensures
        wf(put(entries, key, node)),
{
    match node {
        Json::Object(c) => lemma_wf_put(entries, key, c),
        _ => {
            let e2 = put(entries, key, node);
            assert forall|p: Seq<Seq<char>>| #[trigger] walk(e2, p) is Ok implies distinct_keys(
                walk(e2, p)->Ok_0,
            ) by {
                if p.len() == 0 {
                    assert(walk(entries, p) is Ok);
                    lemma_put_distinct(entries, key, node);
                } else {
                    lemma_walk_put(entries, key, node, p);
                    assert(walk(entries, p) is Ok);
                }
            }
        },
    }
}

/// A common first name does not change which path begins the other.
pub proof fn lemma_prefix_cons(x: Seq<char>, a: Seq<Seq<char>>, b: Seq<Seq<char>>)
    ensures
        (seq![x] + a).is_prefix_of(seq![x] + b) <==> a.is_prefix_of(b),
{
    let xa = seq![x] + a;
    let xb = seq![x] + b;
    if a.is_prefix_of(b) {
        assert(xa =~= xb.subrange(0, xa.len() as int));
    }
    if xa.is_prefix_of(xb) {
        assert forall|i: int| 0 <= i < a.len() implies a[i] == b[i] by {
            assert(xa[i + 1] == xb.subrange(0, xa.len() as int)[i + 1]);
        }
        assert(a =~= b.subrange(0, a.len() as int));
    }
}

/// One level of placing a node: if the child object at `key` gets `node` placed at `tail`,
/// the parent gets it at `key` followed by `tail`.
pub proof fn lemma_placed_step(
    entries: Seq<(String, Json)>,
    key: String,
    child: Seq<(String, Json)>,
    new_child: Vec<(String, Json)>,
    tail: Seq<Seq<char>>,
    node: Json,
)
    requires
        tail.len() > 0,
        kind_at(entries, seq![key@]) == Some(Kind::Object),
        forall|q: Seq<Seq<char>>| q.len() > 0 ==> #[trigger] kind_at(entries, seq![key@] + q) == kind_at(child, q),
        forall|q: Seq<Seq<char>>| #[trigger] kind_at(new_child@, q) == placed(child, tail, node, q),
    ensures
        forall|q: Seq<Seq<char>>| #[trigger] kind_at(put(entries, key, Json::Object(new_child)), q)
            == placed(entries, seq![key@] + tail, node, q),
{
    let target = seq![key@] + tail;
    assert forall|q: Seq<Seq<char>>| #[trigger] kind_at(put(entries, key, Json::Object(new_child)), q)
        == placed(entries, target, node, q) by {
        lemma_kind_put(entries, key, Json::Object(new_child), q);
        if q.len() > 0 && q[0] == key@ {
            let r = q.drop_first();
            assert(q =~= seq![key@] + r);
            lemma_prefix_cons(key@, tail, r);
            if tail.is_prefix_of(r) {
                assert(q.skip(target.len() as int) =~= r.skip(tail.len() as int));
            } else if r.len() > 0 {
                assert(kind_at(entries, seq![key@] + r) == kind_at(child, r));
            } else {
                assert(q =~= seq![key@]);
            }
        } else if q.len() > 0 {
            assert(!target.is_prefix_of(q)) by {
                if target.is_prefix_of(q) {
                    assert(q[0] == target[0]);
                }
            }
        }
    }
}

/// Placing a node directly under the top.
pub proof fn lemma_placed_put(entries: Seq<(String, Json)>, key: String, node: Json)
    ensures
        forall|q: Seq<Seq<char>>| #[trigger] kind_at(put(entries, key, node), q) == placed(
            entries,
            seq![key@],
            node,
            q,
        ),
{
    assert forall|q: Seq<Seq<char>>| #[trigger] kind_at(put(entries, key, node), q) == placed(
        entries,
        seq![key@],
        node,
        q,
    ) by {
        lemma_kind_put(entries, key, node, q);
        if q.len() > 0 && q[0] == key@ {
            assert(seq![key@].is_prefix_of(q));
            assert(q.skip(1) =~= q.drop_first());
        } else if q.len() > 0 {
            assert(!seq![key@].is_prefix_of(q)) by {
                if seq![key@].is_prefix_of(q) {
                    assert(q[0] == seq![key@][0]);
                }
            }
        }
    }
}

/// One level of opening a path: if the child object at `key` (or a new empty one) gets the
/// objects of `tail`, the parent gets those of `key` followed by `tail`.
pub proof fn lemma_opened_step(
    entries: Seq<(String, Json)>,
    key: String,
    child: Seq<(String, Json)>,
    new_child: Vec<(String, Json)>,
    tail: Seq<Seq<char>>,
)
    requires
        forall|q: Seq<Seq<char>>| q.len() > 0 ==> #[trigger] kind_at(entries, seq![key@] + q) == kind_at(child, q),
        forall|q: Seq<Seq<char>>| #[trigger] kind_at(new_child@, q) == opened(child, tail, q),
    ensures
        forall|q: Seq<Seq<char>>| #[trigger] kind_at(put(entries, key, Json::Object(new_child)), q)
            == opened(entries, seq![key@] + tail, q),
{
    let target = seq![key@] + tail;
    assert forall|q: Seq<Seq<char>>| #[trigger] kind_at(put(entries, key, Json::Object(new_child)), q)
        == opened(entries, target, q) by {
        lemma_kind_put(entries, key, Json::Object(new_child), q);
        if q.len() > 0 && q[0] == key@ {
            let r = q.drop_first();
            assert(q =~= seq![key@] + r);
            lemma_prefix_cons(key@, r, tail);
            if !r.is_prefix_of(tail) {
                assert(kind_at(entries, seq![key@] + r) == kind_at(child, r));
            }
        } else if q.len() > 0 {
            assert(!q.is_prefix_of(target)) by {
                if q.is_prefix_of(target) {
                    assert(q[0] == target[0]);
                }
            }
        }
    }
}

/// The index of the first entry named `key`, if there is one.
pub fn find_key(entries: &Vec<(String, Json)>, key: &String) -> (r: Option<usize>)
    ensures
        match r {
            Some(i) => is_first_key(entries@, key@, i as int),
            None => !has_key(entries@, key@),
        },
{
    let n = entries.len();
    for i in 0..n
        invariant
            n == entries@.len(),
            forall|j: int| 0 <= j < i ==> entries@[j].0@ != key@,
    {
        if entries[i].0 == *key {
            return Some(i);
        }
    }
    proof {
        if has_key(entries@, key@) {
            let i = key_pos(entries@, key@);
            assert(entries@[i].0@ == key@);
        }
    }
    None
}

/// Sets the node of `key` in `entries`.
pub fn put_entry(entries: &mut Vec<(String, Json)>, key: String, node: Json)
    ensures
        final(entries)@ == put(old(entries)@, key, node),
{
    match find_key(entries, &key) {
        Some(i) => {
            let ghost e = entries@;
            proof {
                lemma_first_key_unique(e, key@, i as int, key_pos(e, key@));
            }
            let (k, _) = entries.remove(i);
            entries.insert(i, (k, node));
            assert(entries@ =~= put(e, key, node));
        },
        None => {
            entries.push((key, node));
        },
    }
}

/// Sets `name` to `node` in the object that `path[i..]` leads to from `entries`.
pub fn place(entries: &mut Vec<(String, Json)>, path: &Vec<String>, i: usize, name: String, node: Json)
    requires
        i <= path.len(),
        walk(old(entries)@, names(path@).skip(i as int)) is Ok,
    ensures
        forall|q: Seq<Seq<char>>| #[trigger] kind_at(final(entries)@, q) == placed(
            old(entries)@,
            names(path@).skip(i as int).push(name@),
            node,
            q,
        ),
        wf(old(entries)@) && node_wf(node) ==> wf(final(entries)@),
    decreases path.len() - i,
{
    let ghost e = entries@;
    let ghost target = names(path@).skip(i as int).push(name@);
    if i == path.len() {
        proof {
            assert(target =~= seq![name@]);
            lemma_placed_put(e, name, node);
            if wf(e) && node_wf(node) {
                lemma_wf_put_node(e, name, node);
            }
        }
        put_entry(entries, name, node);
    } else {
        let ghost p = names(path@).skip(i as int);
        let ghost tail = names(path@).skip(i + 1).push(name@);
        proof {
            assert(p[0] == path@[i as int]@);
            assert(p.drop_first() =~= names(path@).skip(i + 1));
            assert(target =~= seq![path@[i as int]@] + tail);
        }
        match find_key(entries, &path[i]) {
            None => {
                proof {
                    assert(false);
                }
            },
            Some(j) => {
                let (k, child) = entries.remove(j);
                match child {
                    Json::Object(mut c) => {
                        let ghost c0 = c;
                        proof {
                            assert(get(e, p[0]) == Some(Json::Object(c0))) by {
                                lemma_first_key_unique(e, p[0], j as int, key_pos(e, p[0]));
                            }
                            if wf(e) {
                                lemma_wf_child(e, p[0], c0);
                            }
                        }
                        place(&mut c, path, i + 1, name, node);
                        entries.insert(j, (k, Json::Object(c)));
                        proof {
                            let key = path@[i as int];
                            lemma_first_key_unique(e, key@, j as int, key_pos(e, key@));
                            assert(entries@ =~= put(e, key, Json::Object(c)));
                            assert forall|q: Seq<Seq<char>>| q.len() > 0 implies #[trigger] kind_at(
                                e,
                                seq![key@] + q,
                            ) == kind_at(c0@, q) by {
                                let kq = seq![key@] + q;
                                assert(kq[0] == key@);
                                assert(kq.drop_first() =~= q);
                                lemma_kind_at_step(e, kq);
                            }
                            lemma_kind_at_step(e, seq![key@]);
                            lemma_placed_step(e, key, c0@, c, tail, node);
                            if wf(e) && node_wf(node) {
                                lemma_wf_put(e, key, c);
                            }
                        }
                    },
                    other => {
                        proof {
                            lemma_first_key_unique(e, p[0], j as int, key_pos(e, p[0]));
                            assert(false);
                        }
                        entries.insert(j, (k, other));
                    },
                }
            },
        }
    }
}

/// Makes every object that is missing on the way `path[i..]` from `entries`; tells whether
/// any was missing.
pub fn open_path(entries: &mut Vec<(String, Json)>, path: &Vec<String>, i: usize) -> (created: bool)
    requires
        i <= path.len(),
        creatable(old(entries)@, names(path@).skip(i as int)),
    ensures
        forall|q: Seq<Seq<char>>| #[trigger] kind_at(final(entries)@, q) == opened(
            old(entries)@,
            names(path@).skip(i as int),
            q,
        ),
        created == (kind_at(old(entries)@, names(path@).skip(i as int)) != Some(Kind::Object)),
        wf(old(entries)@) ==> wf(final(entries)@),
    decreases path.len() - i,
{
    let ghost e = entries@;
    let ghost p = names(path@).skip(i as int);
    if i == path.len() {
        proof {
            assert(p =~= Seq::<Seq<char>>::empty());
            assert forall|q: Seq<Seq<char>>| #[trigger] kind_at(entries@, q) == opened(e, p, q) by {
                if q.is_prefix_of(p) {
                    assert(q.len() == 0);
                }
            }
        }
        return false;
    }
    let ghost tail = names(path@).skip(i + 1);
    let ghost key = path@[i as int];
    proof {
        assert(p[0] == key@);
        assert(p.drop_first() =~= tail);
        assert(p =~= seq![key@] + tail);
    }
    match find_key(entries, &path[i]) {
        None => {
            let mut c: Vec<(String, Json)> = Vec::new();
            proof {
                assert(creatable(c@, tail));
                assert forall|q: Seq<Seq<char>>| #[trigger] walk(c@, q) is Ok implies distinct_keys(
                    walk(c@, q)->Ok_0,
                ) by {
                    if q.len() > 0 {
                        assert(!has_key(c@, q[0]));
                    }
                }
            }
            let _ = open_path(&mut c, path, i + 1);
            entries.push((path[i].clone(), Json::Object(c)));
            proof {
                assert(entries@ =~= put(e, key, Json::Object(c)));
                assert forall|q: Seq<Seq<char>>| q.len() > 0 implies #[trigger] kind_at(
                    e,
                    seq![key@] + q,
                ) == kind_at(Seq::<(String, Json)>::empty(), q) by {
                    let kq = seq![key@] + q;
                    assert(kq[0] == key@);
                    lemma_kind_at_step(e, kq);
                    assert(!has_key(Seq::<(String, Json)>::empty(), q[0]));
                }
                lemma_opened_step(e, key, Seq::<(String, Json)>::empty(), c, tail);
                lemma_kind_at_step(e, p);
                if wf(e) {
                    lemma_wf_put(e, key, c);
                }
            }
            true
        },
        Some(j) => {
            let (k, child) = entries.remove(j);
            match child {
                Json::Object(mut c) => {
                    let ghost c0 = c;
                    proof {
                        lemma_first_key_unique(e, key@, j as int, key_pos(e, key@));
                        assert(get(e, key@) == Some(Json::Object(c0)));
                        if wf(e) {
                            lemma_wf_child(e, key@, c0);
                        }
                    }
                    let created = open_path(&mut c, path, i + 1);
                    entries.insert(j, (k, Json::Object(c)));
                    proof {
                        assert(entries@ =~= put(e, key, Json::Object(c)));
                        assert forall|q: Seq<Seq<char>>| q.len() > 0 implies #[trigger] kind_at(
                            e,
                            seq![key@] + q,
                        ) == kind_at(c0@, q) by {
                            let kq = seq![key@] + q;
                            assert(kq[0] == key@);
                            assert(kq.drop_first() =~= q);
                            lemma_kind_at_step(e, kq);
                        }
                        lemma_opened_step(e, key, c0@, c, tail);
                        lemma_kind_at_step(e, p);
                        if wf(e) {
                            lemma_wf_put(e, key, c);
                        }
                    }
                    created
                },
                other => {
                    proof {
                        lemma_first_key_unique(e, key@, j as int, key_pos(e, key@));
                        assert(false);
                    }
                    entries.insert(j, (k, other));
                    false
                },
            }
        },
    }
}

} // verus!
