//! What holds across requests: a value reads back as it was written, writes and creations
//! leave the rest of the registry alone, and created keys open.
use vstd::prelude::*;
use vstd::utf8::{decode_utf8, decode_utf8_encode_utf8, valid_utf8};
use crate::enums::{lemma_reg_type_name_round_trip, lemma_reg_type_names, reg_type_name, RegType};
use crate::json::{
    creatable, get, kind_at, lemma_creatable_prefix, lemma_kind_prefix, lemma_object_creatable,
    lemma_walk_kind, opened, walk, Failure, Json, Kind,
};
use crate::reg_key::{
    hkey_local_machine_kind, hkey_users_kind, initial_kind, read_value, stored, value_readable,
};
use crate::path::{components, joined, kept, lemma_components_joined, segments};

verus! {

/// Two objects that agree on the kinds at every prefix of `path` walk `path` alike.
pub proof fn lemma_walk_agree(e1: Seq<(String, Json)>, e2: Seq<(String, Json)>, path: Seq<Seq<char>>)
    requires
        forall|q: Seq<Seq<char>>| q.is_prefix_of(path) ==> #[trigger] kind_at(e1, q) == kind_at(e2, q),
    ensures
        walk(e1, path) is Ok == walk(e2, path) is Ok,
        walk(e1, path) is Err ==> walk(e1, path) == walk(e2, path),
    decreases path.len(),
{
    if path.len() > 0 {
        let first = seq![path[0]];
        assert(first =~= path.subrange(0, 1));
        assert(first.is_prefix_of(path));
        assert(kind_at(e1, first) == kind_at(e2, first));
        let rest = path.drop_first();
        match (get(e1, path[0]), get(e2, path[0])) {
            (Some(Json::Object(c1)), Some(Json::Object(c2))) => {
                assert forall|q: Seq<Seq<char>>| q.is_prefix_of(rest) implies #[trigger] kind_at(
                    c1@,
                    q,
                ) == kind_at(c2@, q) by {
                    let fq = first + q;
                    assert(fq[0] == path[0]);
                    assert(fq.drop_first() =~= q);
                    assert(fq =~= path.subrange(0, fq.len() as int)) by {
                        assert forall|i: int| 0 <= i < fq.len() implies fq[i] == path[i] by {
                            if i > 0 {
                                assert(q[i - 1] == rest.subrange(0, q.len() as int)[i - 1]);
                            }
                        }
                    }
                    assert(kind_at(e1, fq) == kind_at(e2, fq));
                }
                lemma_walk_agree(c1@, c2@, rest);
            },
            _ => {},
        }
    }
}

/// A value reads back as it was written: after `set_raw_value` stored `bytes` of type
/// `vtype` under `name` in the key at `keys`, `get_raw_value` can read it and gives the same
/// bytes and type.
pub proof fn lemma_read_after_write(
    old: Seq<(String, Json)>,
    new: Seq<(String, Json)>,
    keys: Seq<Seq<char>>,
    name: Seq<char>,
    bytes: Seq<u8>,
    vtype: RegType,
)
    requires
        walk(old, keys) is Ok,
        valid_utf8(bytes),
        forall|q: Seq<Seq<char>>| #[trigger] kind_at(new, q) == stored(old, keys, name, bytes, vtype, q),
    ensures
        value_readable(new, keys, name),
        read_value(new, keys, name) == Ok::<(Seq<u8>, RegType), Failure>((bytes, vtype)),
{
    let target = keys.push(name);
    lemma_walk_kind(old, keys);
    assert(!target.is_prefix_of(keys));
    assert(kind_at(new, keys) == kind_at(old, keys));
    lemma_walk_kind(new, keys);
    assert(target.is_prefix_of(target));
    assert(target.skip(target.len() as int) =~= Seq::<Seq<char>>::empty());
    assert(kind_at(new, target) == Some(Kind::Object));
    reveal_strlit("value");
    reveal_strlit("vtype");
    assert("value"@[1] != "vtype"@[1]);
    let pv = keys + seq![name, "value"@];
    let pt = keys + seq![name, "vtype"@];
    assert(pv.subrange(0, target.len() as int) =~= target);
    assert(pt.subrange(0, target.len() as int) =~= target);
    assert(pv.skip(target.len() as int) =~= seq!["value"@]);
    assert(pt.skip(target.len() as int) =~= seq!["vtype"@]);
    assert(kind_at(new, pv) == stored(old, keys, name, bytes, vtype, pv));
    assert(kind_at(new, pt) == stored(old, keys, name, bytes, vtype, pt));
    decode_utf8_encode_utf8(bytes);
    lemma_reg_type_name_round_trip(vtype);
}

/// What a written value holds: its `value` string is the text its bytes encode, and its
/// `vtype` string is the type's own identifier (`REG_BINARY` for `REG_BINARY`, and so on).
pub proof fn lemma_write_stores_strings(
    old: Seq<(String, Json)>,
    new: Seq<(String, Json)>,
    keys: Seq<Seq<char>>,
    name: Seq<char>,
    bytes: Seq<u8>,
    vtype: RegType,
)
    requires
        forall|q: Seq<Seq<char>>| #[trigger] kind_at(new, q) == stored(old, keys, name, bytes, vtype, q),
    ensures
        kind_at(new, keys + seq![name, "value"@]) == Some(Kind::Str(decode_utf8(bytes))),
        kind_at(new, keys + seq![name, "vtype"@]) == Some(Kind::Str(reg_type_name(vtype))),
        vtype == RegType::REG_NONE ==> kind_at(new, keys + seq![name, "vtype"@]) == Some(Kind::Str("REG_NONE"@)),
        vtype == RegType::REG_SZ ==> kind_at(new, keys + seq![name, "vtype"@]) == Some(Kind::Str("REG_SZ"@)),
        vtype == RegType::REG_EXPAND_SZ ==> kind_at(new, keys + seq![name, "vtype"@]) == Some(Kind::Str("REG_EXPAND_SZ"@)),
        vtype == RegType::REG_BINARY ==> kind_at(new, keys + seq![name, "vtype"@]) == Some(Kind::Str("REG_BINARY"@)),
        vtype == RegType::REG_DWORD ==> kind_at(new, keys + seq![name, "vtype"@]) == Some(Kind::Str("REG_DWORD"@)),
        vtype == RegType::REG_DWORD_BIG_ENDIAN ==> kind_at(new, keys + seq![name, "vtype"@]) == Some(
            Kind::Str("REG_DWORD_BIG_ENDIAN"@),
        ),
        vtype == RegType::REG_LINK ==> kind_at(new, keys + seq![name, "vtype"@]) == Some(Kind::Str("REG_LINK"@)),
        vtype == RegType::REG_MULTI_SZ ==> kind_at(new, keys + seq![name, "vtype"@]) == Some(Kind::Str("REG_MULTI_SZ"@)),
        vtype == RegType::REG_RESOURCE_LIST ==> kind_at(new, keys + seq![name, "vtype"@]) == Some(
            Kind::Str("REG_RESOURCE_LIST"@),
        ),
        vtype == RegType::REG_FULL_RESOURCE_DESCRIPTOR ==> kind_at(new, keys + seq![name, "vtype"@]) == Some(
            Kind::Str("REG_FULL_RESOURCE_DESCRIPTOR"@),
        ),
        vtype == RegType::REG_RESOURCE_REQUIREMENTS_LIST ==> kind_at(new, keys + seq![name, "vtype"@]) == Some(
            Kind::Str("REG_RESOURCE_REQUIREMENTS_LIST"@),
        ),
        vtype == RegType::REG_QWORD ==> kind_at(new, keys + seq![name, "vtype"@]) == Some(Kind::Str("REG_QWORD"@)),
{
    let target = keys.push(name);
    reveal_strlit("value");
    reveal_strlit("vtype");
    assert("value"@[1] != "vtype"@[1]);
    let pv = keys + seq![name, "value"@];
    let pt = keys + seq![name, "vtype"@];
    assert(pv.subrange(0, target.len() as int) =~= target);
    assert(pt.subrange(0, target.len() as int) =~= target);
    assert(pv.skip(target.len() as int) =~= seq!["value"@]);
    assert(pt.skip(target.len() as int) =~= seq!["vtype"@]);
    assert(kind_at(new, pv) == stored(old, keys, name, bytes, vtype, pv));
    assert(kind_at(new, pt) == stored(old, keys, name, bytes, vtype, pt));
    lemma_reg_type_names();
}

/// Only `HKEY_LOCAL_MACHINE` (-2147483646) and `HKEY_USERS` (-2147483645) start with sample
/// data; every other handle starts with an empty object, with nothing below its top.
pub proof fn lemma_initial_storage_by_handle(hkey: isize, q: Seq<Seq<char>>)
    ensures
        hkey == -2147483646isize ==> initial_kind(hkey, q) == hkey_local_machine_kind(q),
        hkey == -2147483645isize ==> initial_kind(hkey, q) == hkey_users_kind(q),
        hkey != -2147483646isize && hkey != -2147483645isize ==> initial_kind(hkey, q) == if q.len()
            == 0 {
            Some(Kind::Object)
        } else {
            None::<Kind>
        },
{
}

/// Writing a value leaves every other value as it was: a read of a value that neither lies
/// below the written one nor holds it gives what it gave before, error or not.
pub proof fn lemma_write_frame(
    old: Seq<(String, Json)>,
    new: Seq<(String, Json)>,
    keys: Seq<Seq<char>>,
    name: Seq<char>,
    bytes: Seq<u8>,
    vtype: RegType,
    other_keys: Seq<Seq<char>>,
    other_name: Seq<char>,
)
    requires
        forall|q: Seq<Seq<char>>| #[trigger] kind_at(new, q) == stored(old, keys, name, bytes, vtype, q),
        !keys.push(name).is_prefix_of(other_keys.push(other_name)),
        !other_keys.push(other_name).is_prefix_of(keys.push(name)),
    ensures
        value_readable(new, other_keys, other_name) == value_readable(old, other_keys, other_name),
        read_value(new, other_keys, other_name) == read_value(old, other_keys, other_name),
{
    let target = keys.push(name);
    let r = other_keys.push(other_name);
    assert forall|q: Seq<Seq<char>>| q.is_prefix_of(other_keys) implies #[trigger] kind_at(new, q)
        == kind_at(old, q) by {
        if target.is_prefix_of(q) {
            assert(target =~= r.subrange(0, target.len() as int)) by {
                assert forall|i: int| 0 <= i < target.len() implies target[i] == r[i] by {
                    assert(target[i] == q.subrange(0, target.len() as int)[i]);
                    assert(q[i] == other_keys.subrange(0, q.len() as int)[i]);
                }
            }
        }
    }
    lemma_walk_agree(new, old, other_keys);
    assert forall|extra: Seq<Seq<char>>| #[trigger] kind_at(new, r + extra) == kind_at(old, r + extra) by {
        let re = r + extra;
        if target.is_prefix_of(re) {
            if target.len() <= r.len() {
                assert(target =~= r.subrange(0, target.len() as int)) by {
                    assert forall|i: int| 0 <= i < target.len() implies target[i] == r[i] by {
                        assert(target[i] == re.subrange(0, target.len() as int)[i]);
                        assert(re[i] == r[i]);
                    }
                }
            } else {
                assert(r =~= target.subrange(0, r.len() as int)) by {
                    assert forall|i: int| 0 <= i < r.len() implies r[i] == target[i] by {
                        assert(target[i] == re.subrange(0, target.len() as int)[i]);
                        assert(re[i] == r[i]);
                    }
                }
            }
        }
    }
    assert(r + Seq::<Seq<char>>::empty() =~= r);
    assert(r + seq!["value"@] =~= other_keys + seq![other_name, "value"@]);
    assert(r + seq!["vtype"@] =~= other_keys + seq![other_name, "vtype"@]);
    assert(kind_at(new, r + Seq::<Seq<char>>::empty()) == kind_at(old, r + Seq::<Seq<char>>::empty()));
    assert(kind_at(new, r + seq!["value"@]) == kind_at(old, r + seq!["value"@]));
    assert(kind_at(new, r + seq!["vtype"@]) == kind_at(old, r + seq!["vtype"@]));
}

/// A created key opens: once `create_subkey` has made the objects on the way to `path`,
/// walking `path` reaches an object, a second creation is allowed, opens the existing key
/// and changes nothing.
pub proof fn lemma_create_then_open(
    old: Seq<(String, Json)>,
    new: Seq<(String, Json)>,
    path: Seq<Seq<char>>,
)
    requires
        forall|q: Seq<Seq<char>>| #[trigger] kind_at(new, q) == opened(old, path, q),
    ensures
        walk(new, path) is Ok,
        kind_at(new, path) == Some(Kind::Object),
        creatable(new, path),
        forall|q: Seq<Seq<char>>| #[trigger] opened(new, path, q) == kind_at(new, q),
{
    assert(path.is_prefix_of(path));
    assert(kind_at(new, path) == opened(old, path, path));
    lemma_walk_kind(new, path);
    lemma_object_creatable(new, path);
    assert forall|q: Seq<Seq<char>>| #[trigger] opened(new, path, q) == kind_at(new, q) by {
        if q.is_prefix_of(path) {
            assert(kind_at(new, q) == opened(old, path, q));
        }
    }
}

/// Creating a key leaves every value that could be read as it was.
pub proof fn lemma_create_keeps_values(
    old: Seq<(String, Json)>,
    new: Seq<(String, Json)>,
    path: Seq<Seq<char>>,
    keys: Seq<Seq<char>>,
    name: Seq<char>,
)
    requires
        creatable(old, path),
        forall|q: Seq<Seq<char>>| #[trigger] kind_at(new, q) == opened(old, path, q),
        value_readable(old, keys, name),
        read_value(old, keys, name) is Ok,
    ensures
        value_readable(new, keys, name),
        read_value(new, keys, name) == read_value(old, keys, name),
{
    let r = keys.push(name);
    let pv = keys + seq![name, "value"@];
    let pt = keys + seq![name, "vtype"@];
    assert(r =~= pv.subrange(0, r.len() as int));
    assert(r =~= pt.subrange(0, r.len() as int));
    lemma_kind_prefix(old, pv, r);
    assert forall|q: Seq<Seq<char>>| q.is_prefix_of(keys) implies #[trigger] kind_at(new, q)
        == kind_at(old, q) by {
        assert(q =~= pv.subrange(0, q.len() as int)) by {
            assert forall|i: int| 0 <= i < q.len() implies q[i] == pv[i] by {
                assert(q[i] == keys.subrange(0, q.len() as int)[i]);
            }
        }
        lemma_kind_prefix(old, pv, q);
    }
    lemma_walk_agree(new, old, keys);
    assert(kind_at(new, r) == kind_at(old, r));
    assert(pv.is_prefix_of(pv));
    assert(pt.is_prefix_of(pt));
    if pv.is_prefix_of(path) {
        lemma_creatable_prefix(old, path, pv);
    }
    if pt.is_prefix_of(path) {
        lemma_creatable_prefix(old, path, pt);
    }
    assert(kind_at(new, pv) == kind_at(old, pv));
    assert(kind_at(new, pt) == kind_at(old, pt));
}

/// A walk that stops on the way to `path` stops at the same place, with the same error,
/// on every longer path.
pub proof fn lemma_walk_extend_err(entries: Seq<(String, Json)>, path: Seq<Seq<char>>, more: Seq<Seq<char>>)
    requires
        walk(entries, path) is Err,
    ensures
        walk(entries, path + more) == walk(entries, path),
    decreases path.len(),
{
    let pm = path + more;
    assert(pm[0] == path[0]);
    assert(pm.drop_first() =~= path.drop_first() + more);
    match get(entries, path[0]) {
        Some(Json::Object(c)) => {
            lemma_walk_extend_err(c@, path.drop_first(), more);
        },
        _ => {},
    }
}

/// Opening `a` and then `b` from the key reached is opening the joined path: the joined
/// path names the subkeys of `a` followed by those of `b`, and where the first step fails,
/// the joined open fails with the same error. This holds where `a` is empty (the joined path
/// is `b`), where `b` is empty, and where the first segment of `b` names something (it is
/// neither `/` nor `.`).
pub proof fn lemma_open_joined(
    storage: Seq<(String, Json)>,
    keys: Seq<Seq<char>>,
    a: Seq<char>,
    b: Seq<char>,
)
    requires
        a.len() == 0 || b.len() == 0 || kept(segments(b)[0]),
    ensures
        keys + components(joined(a, b)) == (keys + components(a)) + components(b),
        walk(storage, keys + components(a)) is Err ==> walk(storage, keys + components(joined(a, b)))
            == walk(storage, keys + components(a)),
{
    lemma_components_joined(a, b);
    assert(keys + components(joined(a, b)) =~= (keys + components(a)) + components(b));
    if walk(storage, keys + components(a)) is Err {
        lemma_walk_extend_err(storage, keys + components(a), components(b));
    }
}

} // verus!
