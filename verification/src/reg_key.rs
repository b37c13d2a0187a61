//! Keys of the registry and the requests made through them.
use vstd::prelude::*;
use vstd::utf8::{decode_utf8, encode_utf8, valid_utf8};
use crate::enums::{reg_type_name, reg_type_of_name, RegType};
use crate::json::{
    creatable, distinct_keys, find_key, get, has_key, key_pos, kind_at, kind_in,
    lemma_first_key_unique, lemma_kind_at_step, lemma_kind_put, lemma_walk_then_kind,
    lemma_wf_put_node, names, node_wf, open_path, opened, place, put, put_entry, walk, wf, Failure,
    Json, Kind, RegError,
};
use crate::enums::{
    predef_key_name, predef_name, predefined_handles, reg_type_from_name, reg_type_name_string,
    RegDisposition, HKEY,
};
use vstd::slice::slice_to_vec;
use crate::path::{components, split_path};
use crate::reg_value::RegValue;
use crate::types::ToRegValue;
use windows_sys::Win32::System::Registry::{REG_OPEN_CREATE_OPTIONS, REG_SAM_FLAGS};

verus! {

/// Handle of an opened registry key: the predefined key whose storage holds it, and the
/// names of the subkeys on the way to it.
#[derive(Debug, Clone, PartialEq, Eq)]
pub struct RegKey {
    key: String,
    sub_keys: Vec<String>,
}

impl View for RegKey {
    type V = (Seq<char>, Seq<Seq<char>>);

    closed spec fn view(&self) -> (Seq<char>, Seq<Seq<char>>) {
        (self.key@, names(self.sub_keys@))
    }
}

/// The kinds below a registry value that holds `text` as type `vtype`: an object with the
/// strings `value` and `vtype`.
pub open spec fn reg_value_kind(text: Seq<char>, vtype: Seq<char>, q: Seq<Seq<char>>) -> Option<Kind> {
    if q.len() == 0 {
        Some(Kind::Object)
    } else if q[0] == "value"@ {
        if q.len() == 1 {
            Some(Kind::Str(text))
        } else {
            None
        }
    } else if q[0] == "vtype"@ {
        if q.len() == 1 {
            Some(Kind::Str(vtype))
        } else {
            None
        }
    } else {
        None
    }
}

/// The kind at `q` once the value `name` of the key at `keys` holds `bytes` as type `vtype`.
pub open spec fn stored(
    root: Seq<(String, Json)>,
    keys: Seq<Seq<char>>,
    name: Seq<char>,
    bytes: Seq<u8>,
    vtype: RegType,
    q: Seq<Seq<char>>,
) -> Option<Kind> {
    let target = keys.push(name);
    if target.is_prefix_of(q) {
        reg_value_kind(decode_utf8(bytes), reg_type_name(vtype), q.skip(target.len() as int))
    } else {
        kind_at(root, q)
    }
}

/// The value `name` of the key at `keys` can be read without a panic: if the key is
/// reached and has an entry `name`, that entry holds the strings `value` and `vtype`.
pub open spec fn value_readable(root: Seq<(String, Json)>, keys: Seq<Seq<char>>, name: Seq<char>) -> bool {
    walk(root, keys) is Ok && kind_at(root, keys.push(name)) is Some ==> {
        &&& kind_at(root, keys + seq![name, "value"@]) matches Some(Kind::Str(_))
        &&& kind_at(root, keys + seq![name, "vtype"@]) matches Some(Kind::Str(_))
    }
}

/// What reading the value `name` of the key at `keys` gives: the UTF-8 bytes of its
/// `value` string and the type its `vtype` string names.
pub open spec fn read_value(root: Seq<(String, Json)>, keys: Seq<Seq<char>>, name: Seq<char>) -> Result<
    (Seq<u8>, RegType),
    Failure,
> {
    match walk(root, keys) {
        Err(f) => Err(f),
        Ok(_) => match kind_at(root, keys.push(name)) {
            None => Err(Failure::ValueNotFound(name)),
            Some(_) => Ok(
                (
                    encode_utf8(kind_at(root, keys + seq![name, "value"@])->Some_0->Str_0),
                    reg_type_of_name(kind_at(root, keys + seq![name, "vtype"@])->Some_0->Str_0),
                ),
            ),
        },
    }
}

/// What writing `bytes` of type `vtype` as the value `name` of the key at `keys` does: where
/// the key is reached, the value is stored and every other node keeps its kind; otherwise
/// the walk's error comes back and nothing changes.
pub open spec fn value_written(
    old: Seq<(String, Json)>,
    new: Seq<(String, Json)>,
    keys: Seq<Seq<char>>,
    name: Seq<char>,
    bytes: Seq<u8>,
    vtype: RegType,
    r: Result<(), RegError>,
) -> bool {
    match r {
        Ok(()) => {
            &&& walk(old, keys) is Ok
            &&& forall|q: Seq<Seq<char>>| #[trigger] kind_at(new, q) == stored(old, keys, name, bytes, vtype, q)
            &&& wf(old) ==> wf(new)
        },
        Err(e) => {
            &&& walk(old, keys) == Err::<Seq<(String, Json)>, Failure>(e@)
            &&& new == old
        },
    }
}

/// `std::str::from_utf8`: the string slice the bytes encode, or `None` where they are not
/// valid UTF-8. The contract states this over vstd's model of UTF-8.
#[verifier::external_body]
fn str_from_utf8(bytes: &[u8]) -> (r: Option<&str>)
    ensures
        match r {
            Some(s) => valid_utf8(bytes@) && s@ == decode_utf8(bytes@),
            None => !valid_utf8(bytes@),
        },
{
    std::str::from_utf8(bytes).ok()
}

/// Adds `name` to `entries`.
fn with_entry(entries: Vec<(String, Json)>, name: &str, node: Json) -> (r: Vec<(String, Json)>)
    ensures
        forall|q: Seq<Seq<char>>| #[trigger] kind_at(r@, q) == if q.len() > 0 && q[0] == name@ {
            kind_in(node, q.drop_first())
        } else {
            kind_at(entries@, q)
        },
        wf(entries@) && node_wf(node) ==> wf(r@),
{
    let mut r = entries;
    let key = String::from_str(name);
    proof {
        assert forall|q: Seq<Seq<char>>| #[trigger] kind_at(put(r@, key, node), q) == if q.len() > 0
            && q[0] == name@ {
            kind_in(node, q.drop_first())
        } else {
            kind_at(r@, q)
        } by {
            lemma_kind_put(r@, key, node, q);
        }
        if wf(r@) && node_wf(node) {
            lemma_wf_put_node(r@, key, node);
        }
    }
    put_entry(&mut r, key, node);
    r
}

/// The object stored for a registry value.
fn reg_value_node(text: String, vtype: String) -> (r: Json)
    ensures
        forall|q: Seq<Seq<char>>| #[trigger] kind_in(r, q) == reg_value_kind(text@, vtype@, q),
        node_wf(r),
{
    let e = Vec::new();
    proof {
        assert forall|q: Seq<Seq<char>>| #[trigger] walk(e@, q) is Ok implies distinct_keys(
            walk(e@, q)->Ok_0,
        ) by {
            if q.len() > 0 {
                assert(!has_key(e@, q[0]));
            }
        }
    }
    let e = with_entry(e, "vtype", Json::Str(vtype));
    let e = with_entry(e, "value", Json::Str(text));
    proof {
        assert forall|q: Seq<Seq<char>>| #[trigger] kind_at(e@, q) == reg_value_kind(text@, vtype@, q) by {
            if q.len() > 1 {
                assert(q.drop_first().len() > 0);
            }
            if q.len() > 0 && q[0] != "value"@ && q[0] != "vtype"@ {
                assert(!has_key(Seq::<(String, Json)>::empty(), q[0]));
            }
        }
    }
    Json::Object(e)
}

/// The kinds below an empty object.
pub open spec fn empty_kind(q: Seq<Seq<char>>) -> Option<Kind> {
    if q.len() == 0 {
        Some(Kind::Object)
    } else {
        None
    }
}

/// An empty object.
fn new_object() -> (r: Vec<(String, Json)>)
    ensures
        r@ == Seq::<(String, Json)>::empty(),
        forall|q: Seq<Seq<char>>| #[trigger] kind_at(r@, q) == empty_kind(q),
        wf(r@),
{
    let r: Vec<(String, Json)> = Vec::new();
    proof {
        assert forall|q: Seq<Seq<char>>| #[trigger] walk(r@, q) is Ok implies distinct_keys(
            walk(r@, q)->Ok_0,
        ) by {
            if q.len() > 0 {
                assert(!has_key(r@, q[0]));
            }
        }
        assert forall|q: Seq<Seq<char>>| #[trigger] kind_at(r@, q) == empty_kind(q) by {
            if q.len() > 0 {
                assert(!has_key(r@, q[0]));
            }
        }
    }
    r
}

/// `HKEY_USERS` as first stored: the profiles `.DEFAULT`, `S-1-5-18`, `S-1-5-19`,
/// `S-1-5-20`, `S-1-5-21-206651429-2786145735-121611483-1001` and its `_Classes`, all empty
/// but the user's, which holds `Volatile Environment` with the value `USERNAME`.
pub open spec fn hkey_users_kind(q: Seq<Seq<char>>) -> Option<Kind> {
    if q.len() == 0 {
        Some(Kind::Object)
    } else if q[0] == ".DEFAULT"@ {
        empty_kind(q.drop_first())
    } else if q[0] == "S-1-5-18"@ {
        empty_kind(q.drop_first())
    } else if q[0] == "S-1-5-19"@ {
        empty_kind(q.drop_first())
    } else if q[0] == "S-1-5-20"@ {
        empty_kind(q.drop_first())
    } else if q[0] == "S-1-5-21-206651429-2786145735-121611483-1001"@ {
        user_profile_kind(q.drop_first())
    } else if q[0] == "S-1-5-21-206651429-2786145735-121611483-1001_Classes"@ {
        empty_kind(q.drop_first())
    } else {
        None
    }
}

/// The user's profile under `HKEY_USERS`.
pub open spec fn user_profile_kind(q: Seq<Seq<char>>) -> Option<Kind> {
    if q.len() == 0 {
        Some(Kind::Object)
    } else if q[0] == "Volatile Environment"@ {
        volatile_environment_kind(q.drop_first())
    } else {
        None
    }
}

/// The user's `Volatile Environment`: `USERNAME` is `bitranox`.
pub open spec fn volatile_environment_kind(q: Seq<Seq<char>>) -> Option<Kind> {
    if q.len() == 0 {
        Some(Kind::Object)
    } else if q[0] == "USERNAME"@ {
        reg_value_kind("bitranox"@, "REG_SZ"@, q.drop_first())
    } else {
        None
    }
}

/// `HKEY_LOCAL_MACHINE` as first stored: `SOFTWARE/Microsoft/Windows NT/CurrentVersion`.
pub open spec fn hkey_local_machine_kind(q: Seq<Seq<char>>) -> Option<Kind> {
    if q.len() == 0 {
        Some(Kind::Object)
    } else if q[0] == "SOFTWARE"@ {
        software_kind(q.drop_first())
    } else {
        None
    }
}

pub open spec fn software_kind(q: Seq<Seq<char>>) -> Option<Kind> {
    if q.len() == 0 {
        Some(Kind::Object)
    } else if q[0] == "Microsoft"@ {
        microsoft_kind(q.drop_first())
    } else {
        None
    }
}

pub open spec fn microsoft_kind(q: Seq<Seq<char>>) -> Option<Kind> {
    if q.len() == 0 {
        Some(Kind::Object)
    } else if q[0] == "Windows NT"@ {
        windows_nt_kind(q.drop_first())
    } else {
        None
    }
}

pub open spec fn windows_nt_kind(q: Seq<Seq<char>>) -> Option<Kind> {
    if q.len() == 0 {
        Some(Kind::Object)
    } else if q[0] == "CurrentVersion"@ {
        current_version_kind(q.drop_first())
    } else {
        None
    }
}

/// `CurrentVersion`: the value `CurrentBuild` is `18363`, and the key `ProfileList`.
pub open spec fn current_version_kind(q: Seq<Seq<char>>) -> Option<Kind> {
    if q.len() == 0 {
        Some(Kind::Object)
    } else if q[0] == "CurrentBuild"@ {
        reg_value_kind("18363"@, "REG_SZ"@, q.drop_first())
    } else if q[0] == "ProfileList"@ {
        profile_list_kind(q.drop_first())
    } else {
        None
    }
}

/// `ProfileList`: four profiles and their image paths.
pub open spec fn profile_list_kind(q: Seq<Seq<char>>) -> Option<Kind> {
    if q.len() == 0 {
        Some(Kind::Object)
    } else if q[0] == "S-1-5-18"@ {
        profile_kind("%systemroot%\\system32\\config\\systemprofile"@, q.drop_first())
    } else if q[0] == "S-1-5-19"@ {
        profile_kind("%systemroot%\\ServiceProfiles\\LocalService"@, q.drop_first())
    } else if q[0] == "S-1-5-20"@ {
        profile_kind("%systemroot%\\ServiceProfiles\\NetworkService"@, q.drop_first())
    } else if q[0] == "S-1-5-21-206651429-2786145735-121611483-1001"@ {
        profile_kind("C:\\Users\\bitranox"@, q.drop_first())
    } else {
        None
    }
}

/// A profile: the value `ProfileImagePath`, of type `REG_EXPAND_SZ`.
pub open spec fn profile_kind(image_path: Seq<char>, q: Seq<Seq<char>>) -> Option<Kind> {
    if q.len() == 0 {
        Some(Kind::Object)
    } else if q[0] == "ProfileImagePath"@ {
        reg_value_kind(image_path, "REG_EXPAND_SZ"@, q.drop_first())
    } else {
        None
    }
}

/// The storage that a predefined key starts with.
pub open spec fn initial_kind(hkey: isize, q: Seq<Seq<char>>) -> Option<Kind> {
    if hkey == -2147483646isize {
        hkey_local_machine_kind(q)
    } else if hkey == -2147483645isize {
        hkey_users_kind(q)
    } else {
        empty_kind(q)
    }
}

/// A profile object of `ProfileList`.
fn profile(image_path: &str) -> (r: Json)
    ensures
        forall|q: Seq<Seq<char>>| #[trigger] kind_in(r, q) == profile_kind(image_path@, q),
        node_wf(r),
{
    let v = reg_value_node(String::from_str(image_path), String::from_str("REG_EXPAND_SZ"));
    let o = with_entry(new_object(), "ProfileImagePath", v);
    Json::Object(o)
}

/// An object with the one entry `name`.
fn single(name: &str, node: Json) -> (r: Json)
    requires
        node_wf(node),
    ensures
        forall|q: Seq<Seq<char>>| #[trigger] kind_in(r, q) == if q.len() == 0 {
            Some(Kind::Object)
        } else if q[0] == name@ {
            kind_in(node, q.drop_first())
        } else {
            None
        },
        node_wf(r),
{
    Json::Object(with_entry(new_object(), name, node))
}

/// The first contents of `HKEY_LOCAL_MACHINE`.
fn hkey_local_machine_data() -> (r: Vec<(String, Json)>)
    ensures
        forall|q: Seq<Seq<char>>| #[trigger] kind_at(r@, q) == hkey_local_machine_kind(q),
        wf(r@),
{
    let profiles = new_object();
    let profiles = with_entry(
        profiles,
        "S-1-5-21-206651429-2786145735-121611483-1001",
        profile("C:\\Users\\bitranox"),
    );
    let profiles = with_entry(profiles, "S-1-5-20", profile("%systemroot%\\ServiceProfiles\\NetworkService"));
    let profiles = with_entry(profiles, "S-1-5-19", profile("%systemroot%\\ServiceProfiles\\LocalService"));
    let profiles = with_entry(profiles, "S-1-5-18", profile("%systemroot%\\system32\\config\\systemprofile"));
    let profile_list = Json::Object(profiles);
    proof {
        assert forall|q: Seq<Seq<char>>| #[trigger] kind_in(profile_list, q) == profile_list_kind(q) by {}
    }
    let current = new_object();
    let current = with_entry(current, "ProfileList", profile_list);
    let build = reg_value_node(String::from_str("18363"), String::from_str("REG_SZ"));
    let current = with_entry(current, "CurrentBuild", build);
    let current = Json::Object(current);
    proof {
        assert forall|q: Seq<Seq<char>>| #[trigger] kind_in(current, q) == current_version_kind(q) by {}
    }
    let windows_nt = single("CurrentVersion", current);
    proof {
        assert forall|q: Seq<Seq<char>>| #[trigger] kind_in(windows_nt, q) == windows_nt_kind(q) by {}
    }
    let microsoft = single("Windows NT", windows_nt);
    proof {
        assert forall|q: Seq<Seq<char>>| #[trigger] kind_in(microsoft, q) == microsoft_kind(q) by {}
    }
    let software = single("Microsoft", microsoft);
    proof {
        assert forall|q: Seq<Seq<char>>| #[trigger] kind_in(software, q) == software_kind(q) by {}
    }
    let r = with_entry(new_object(), "SOFTWARE", software);
    proof {
        assert forall|q: Seq<Seq<char>>| #[trigger] kind_at(r@, q) == hkey_local_machine_kind(q) by {}
    }
    r
}

/// The first contents of `HKEY_USERS`.
fn hkey_users_data() -> (r: Vec<(String, Json)>)
    ensures
        forall|q: Seq<Seq<char>>| #[trigger] kind_at(r@, q) == hkey_users_kind(q),
        wf(r@),
{
    let username = reg_value_node(String::from_str("bitranox"), String::from_str("REG_SZ"));
    let volatile = single("USERNAME", username);
    proof {
        assert forall|q: Seq<Seq<char>>| #[trigger] kind_in(volatile, q) == volatile_environment_kind(q) by {}
    }
    let user = single("Volatile Environment", volatile);
    proof {
        assert forall|q: Seq<Seq<char>>| #[trigger] kind_in(user, q) == user_profile_kind(q) by {}
    }
    let r = new_object();
    let r = with_entry(
        r,
        "S-1-5-21-206651429-2786145735-121611483-1001_Classes",
        Json::Object(new_object()),
    );
    let r = with_entry(r, "S-1-5-21-206651429-2786145735-121611483-1001", user);
    let r = with_entry(r, "S-1-5-20", Json::Object(new_object()));
    let r = with_entry(r, "S-1-5-19", Json::Object(new_object()));
    let r = with_entry(r, "S-1-5-18", Json::Object(new_object()));
    let r = with_entry(r, ".DEFAULT", Json::Object(new_object()));
    proof {
        assert forall|q: Seq<Seq<char>>| #[trigger] kind_at(r@, q) == hkey_users_kind(q) by {}
    }
    r
}

impl RegKey {
    /// The handle of a predefined key: its storage is named after the constant, and it is
    /// the top of that storage.
    pub fn predef(hkey: HKEY) -> (r: RegKey)
        ensures
            r@ == (predef_key_name(hkey), Seq::<Seq<char>>::empty()),
    {
        let key = predef_name(hkey);
        let sub_keys: Vec<String> = Vec::new();
        proof {
            assert(names(sub_keys@) =~= Seq::<Seq<char>>::empty());
        }
        RegKey { key, sub_keys }
    }

    /// The storage that a predefined key starts with where it has none yet: the sample
    /// data of `HKEY_LOCAL_MACHINE` and of `HKEY_USERS`, and an empty object for the others.
    pub fn initial_storage(hkey: HKEY) -> (r: Vec<(String, Json)>)
        ensures
            forall|q: Seq<Seq<char>>| #[trigger] kind_at(r@, q) == initial_kind(hkey, q),
            hkey != -2147483646isize && hkey != -2147483645isize ==> r@.len() == 0,
            wf(r@),
    {
        let hs = predefined_handles();
        if hkey == hs[5] {
            hkey_local_machine_data()
        } else if hkey == hs[9] {
            hkey_users_data()
        } else {
            new_object()
        }
    }

    /// The name of the storage that holds this key.
    pub fn storage_name(&self) -> (r: &String)
        ensures
            r@ == self@.0,
    {
        &self.key
    }

    /// The key reached from this one by the components of `path`.
    fn join(&self, path: &str) -> (r: RegKey)
        ensures
            r@ == (self@.0, self@.1 + components(path@)),
    {
        let key = self.key.clone();
        let mut sub_keys: Vec<String> = Vec::new();
        let n = self.sub_keys.len();
        for i in 0..n
            invariant
                n == self.sub_keys@.len(),
                names(sub_keys@) == names(self.sub_keys@.take(i as int)),
        {
            let s = self.sub_keys[i].clone();
            let ghost prev = sub_keys@;
            sub_keys.push(s);
            proof {
                assert(self.sub_keys@.take(i + 1) =~= self.sub_keys@.take(i as int).push(s));
                assert(names(sub_keys@) =~= names(prev).push(s@));
                assert(names(self.sub_keys@.take(i + 1)) =~= names(self.sub_keys@.take(i as int)).push(
                    s@,
                ));
            }
        }
        let mut path_keys = split_path(path);
        let ghost first = sub_keys@;
        let ghost second = path_keys@;
        sub_keys.append(&mut path_keys);
        proof {
            assert(self.sub_keys@.take(n as int) =~= self.sub_keys@);
            assert(names(sub_keys@) =~= names(first) + names(second));
        }
        RegKey { key, sub_keys }
    }

    /// The object that `subkeys` lead to in `storage`, or why there is none: a missing entry
    /// on the way, or an entry on the way that is not an object.
    fn storage_subkey<'a>(storage: &'a Vec<(String, Json)>, subkeys: &Vec<String>) -> (r: Result<
        &'a Vec<(String, Json)>,
        RegError,
    >)
        ensures
            match r {
                Ok(c) => walk(storage@, names(subkeys@)) == Ok::<Seq<(String, Json)>, Failure>(c@),
                Err(e) => walk(storage@, names(subkeys@)) == Err::<Seq<(String, Json)>, Failure>(e@),
            },
    {
        let mut cur = storage;
        let n = subkeys.len();
        proof {
            assert(names(subkeys@).skip(0) =~= names(subkeys@));
        }
        for i in 0..n
            invariant
                n == subkeys@.len(),
                walk(storage@, names(subkeys@)) == walk(cur@, names(subkeys@).skip(i as int)),
        {
            let ghost rest = names(subkeys@).skip(i as int);
            proof {
                assert(rest[0] == subkeys@[i as int]@);
                assert(rest.drop_first() =~= names(subkeys@).skip(i + 1));
            }
            let subkey = &subkeys[i];
            match find_key(cur, subkey) {
                None => {
                    return Err(RegError::SubkeyNotFound(subkey.clone()));
                },
                Some(j) => {
                    proof {
                        lemma_first_key_unique(cur@, subkey@, j as int, key_pos(cur@, subkey@));
                    }
                    let entry = &cur[j];
                    match &entry.1 {
                        Json::Object(c) => {
                            cur = c;
                        },
                        _ => {
                            return Err(RegError::NotAnObject);
                        },
                    }
                },
            }
        }
        proof {
            assert(names(subkeys@).skip(n as int) =~= Seq::<Seq<char>>::empty());
        }
        Ok(cur)
    }

    /// Opens the subkey at `path` below this key: succeeds where every name on the way
    /// from the storage's top names an object.
    pub fn open_subkey(&self, storage: &Vec<(String, Json)>, path: &str) -> (r: Result<RegKey, RegError>)
        ensures
            match r {
                Ok(k) => k@ == (self@.0, self@.1 + components(path@)) && walk(
                    storage@,
                    self@.1 + components(path@),
                ) is Ok,
                Err(e) => walk(storage@, self@.1 + components(path@)) == Err::<
                    Seq<(String, Json)>,
                    Failure,
                >(e@),
            },
    {
        let reg_key = self.join(path);
        Self::storage_subkey(storage, &reg_key.sub_keys)?;
        Ok(reg_key)
    }

    /// `open_subkey`; the options and access rights are not used.
    pub fn open_subkey_with_flags(
        &self,
        storage: &Vec<(String, Json)>,
        path: &str,
        _perms: REG_SAM_FLAGS,
    ) -> (r: Result<RegKey, RegError>)
        ensures
            match r {
                Ok(k) => k@ == (self@.0, self@.1 + components(path@)) && walk(
                    storage@,
                    self@.1 + components(path@),
                ) is Ok,
                Err(e) => walk(storage@, self@.1 + components(path@)) == Err::<
                    Seq<(String, Json)>,
                    Failure,
                >(e@),
            },
    {
        self.open_subkey(storage, path)
    }

    /// `open_subkey`; the options and access rights are not used.
    pub fn open_subkey_with_options_flags(
        &self,
        storage: &Vec<(String, Json)>,
        path: &str,
        _options: REG_OPEN_CREATE_OPTIONS,
        _perms: REG_SAM_FLAGS,
    ) -> (r: Result<RegKey, RegError>)
        ensures
            match r {
                Ok(k) => k@ == (self@.0, self@.1 + components(path@)) && walk(
                    storage@,
                    self@.1 + components(path@),
                ) is Ok,
                Err(e) => walk(storage@, self@.1 + components(path@)) == Err::<
                    Seq<(String, Json)>,
                    Failure,
                >(e@),
            },
    {
        self.open_subkey(storage, path)
    }

    /// Whether `create_subkey` can make the subkey at `path`: no node on the way to it is
    /// anything but an object.
    pub fn can_create_subkey(&self, storage: &Vec<(String, Json)>, path: &str) -> (r: bool)
        ensures
            r == creatable(storage@, self@.1 + components(path@)),
    {
        let reg_key = self.join(path);
        let subkeys = &reg_key.sub_keys;
        let mut cur = storage;
        let n = subkeys.len();
        proof {
            assert(names(subkeys@).skip(0) =~= names(subkeys@));
        }
        for i in 0..n
            invariant
                n == subkeys@.len(),
                creatable(storage@, names(subkeys@)) == creatable(cur@, names(subkeys@).skip(i as int)),
                names(subkeys@) == self@.1 + components(path@),
        {
            let ghost rest = names(subkeys@).skip(i as int);
            proof {
                assert(rest[0] == subkeys@[i as int]@);
                assert(rest.drop_first() =~= names(subkeys@).skip(i + 1));
            }
            let subkey = &subkeys[i];
            match find_key(cur, subkey) {
                None => {
                    proof {
                        assert(get(cur@, rest[0]) is None);
                        assert(creatable(cur@, rest));
                    }
                    return true;
                },
                Some(j) => {
                    proof {
                        lemma_first_key_unique(cur@, subkey@, j as int, key_pos(cur@, subkey@));
                    }
                    let entry = &cur[j];
                    match &entry.1 {
                        Json::Object(c) => {
                            cur = c;
                        },
                        _ => {
                            proof {
                                assert(get(cur@, rest[0]) == Some(entry.1));
                                assert(!creatable(cur@, rest));
                            }
                            return false;
                        },
                    }
                },
            }
        }
        proof {
            assert(names(subkeys@).skip(n as int) =~= Seq::<Seq<char>>::empty());
        }
        true
    }

    /// Creates the subkey at `path` below this key, with every missing key on the way, and
    /// tells whether any key was missing.
    pub fn create_subkey(&self, storage: &mut Vec<(String, Json)>, path: &str) -> (r: (
        RegKey,
        RegDisposition,
    ))
        requires
            creatable(old(storage)@, self@.1 + components(path@)),
        ensures
            r.0@ == (self@.0, self@.1 + components(path@)),
            r.1 == if kind_at(old(storage)@, self@.1 + components(path@)) == Some(Kind::Object) {
                RegDisposition::REG_OPENED_EXISTING_KEY
            } else {
                RegDisposition::REG_CREATED_NEW_KEY
            },
            forall|q: Seq<Seq<char>>| #[trigger] kind_at(final(storage)@, q) == opened(
                old(storage)@,
                self@.1 + components(path@),
                q,
            ),
            wf(old(storage)@) ==> wf(final(storage)@),
    {
        let reg_key = self.join(path);
        proof {
            assert(names(reg_key.sub_keys@).skip(0) =~= names(reg_key.sub_keys@));
        }
        let created = open_path(storage, &reg_key.sub_keys, 0);
        let dispo = if created {
            RegDisposition::REG_CREATED_NEW_KEY
        } else {
            RegDisposition::REG_OPENED_EXISTING_KEY
        };
        (reg_key, dispo)
    }

    /// `create_subkey`; the access rights are not used.
    pub fn create_subkey_with_flags(
        &self,
        storage: &mut Vec<(String, Json)>,
        path: &str,
        _perms: REG_SAM_FLAGS,
    ) -> (r: (RegKey, RegDisposition))
        requires
            creatable(old(storage)@, self@.1 + components(path@)),
        ensures
            r.0@ == (self@.0, self@.1 + components(path@)),
            r.1 == if kind_at(old(storage)@, self@.1 + components(path@)) == Some(Kind::Object) {
                RegDisposition::REG_OPENED_EXISTING_KEY
            } else {
                RegDisposition::REG_CREATED_NEW_KEY
            },
            forall|q: Seq<Seq<char>>| #[trigger] kind_at(final(storage)@, q) == opened(
                old(storage)@,
                self@.1 + components(path@),
                q,
            ),
            wf(old(storage)@) ==> wf(final(storage)@),
    {
        self.create_subkey(storage, path)
    }

    /// `create_subkey`; the options and access rights are not used.
    pub fn create_subkey_with_options_flags(
        &self,
        storage: &mut Vec<(String, Json)>,
        path: &str,
        _options: REG_OPEN_CREATE_OPTIONS,
        _perms: REG_SAM_FLAGS,
    ) -> (r: (RegKey, RegDisposition))
        requires
            creatable(old(storage)@, self@.1 + components(path@)),
        ensures
            r.0@ == (self@.0, self@.1 + components(path@)),
            r.1 == if kind_at(old(storage)@, self@.1 + components(path@)) == Some(Kind::Object) {
                RegDisposition::REG_OPENED_EXISTING_KEY
            } else {
                RegDisposition::REG_CREATED_NEW_KEY
            },
            forall|q: Seq<Seq<char>>| #[trigger] kind_at(final(storage)@, q) == opened(
                old(storage)@,
                self@.1 + components(path@),
                q,
            ),
            wf(old(storage)@) ==> wf(final(storage)@),
    {
        self.create_subkey(storage, path)
    }

    /// The string held by the entry `key` of a value object.
    fn string_entry<'a>(m: &'a Vec<(String, Json)>, key: &str) -> (r: &'a String)
        requires
            kind_at(m@, seq![key@]) matches Some(Kind::Str(_)),
        ensures
            kind_at(m@, seq![key@]) == Some(Kind::Str(r@)),
    {
        let k = String::from_str(key);
        match find_key(m, &k) {
            Some(j) => {
                proof {
                    lemma_first_key_unique(m@, k@, j as int, key_pos(m@, k@));
                }
                let entry = &m[j];
                match &entry.1 {
                    Json::Str(s) => s,
                    _ => {
                        proof {
                            assert(false);
                        }
                        &entry.0
                    },
                }
            },
            None => {
                proof {
                    assert(false);
                }
                &m[0].0
            },
        }
    }

    /// Whether the entry `key` of an object holds a string.
    fn has_string_entry(m: &Vec<(String, Json)>, key: &str) -> (r: bool)
        ensures
            r == (kind_at(m@, seq![key@]) matches Some(Kind::Str(_))),
    {
        let k = String::from_str(key);
        proof {
            lemma_kind_at_step(m@, seq![key@]);
        }
        match find_key(m, &k) {
            Some(j) => {
                proof {
                    lemma_first_key_unique(m@, k@, j as int, key_pos(m@, k@));
                }
                let entry = &m[j];
                match &entry.1 {
                    Json::Str(_) => true,
                    _ => false,
                }
            },
            None => false,
        }
    }

    /// Whether `get_raw_value` can read the value `name` of this key: where the key is
    /// reached and has an entry `name`, that entry holds the strings `value` and `vtype`.
    pub fn value_is_readable(&self, storage: &Vec<(String, Json)>, name: &str) -> (r: bool)
        ensures
            r == value_readable(storage@, self@.1, name@),
    {
        let ghost keys = self@.1;
        match Self::storage_subkey(storage, &self.sub_keys) {
            Err(_) => true,
            Ok(c) => {
                let name_s = String::from_str(name);
                proof {
                    assert(keys + seq![name@] =~= keys.push(name@));
                    lemma_walk_then_kind(storage@, keys, seq![name@]);
                    lemma_walk_then_kind(storage@, keys, seq![name@, "value"@]);
                    lemma_walk_then_kind(storage@, keys, seq![name@, "vtype"@]);
                    lemma_kind_at_step(c@, seq![name@]);
                    lemma_kind_at_step(c@, seq![name@, "value"@]);
                    lemma_kind_at_step(c@, seq![name@, "vtype"@]);
                    assert(seq![name@, "value"@].drop_first() =~= seq!["value"@]);
                    assert(seq![name@, "vtype"@].drop_first() =~= seq!["vtype"@]);
                }
                match find_key(c, &name_s) {
                    None => true,
                    Some(j) => {
                        proof {
                            lemma_first_key_unique(c@, name@, j as int, key_pos(c@, name@));
                        }
                        let entry = &c[j];
                        match &entry.1 {
                            Json::Object(m) => Self::has_string_entry(m, "value")
                                && Self::has_string_entry(m, "vtype"),
                            _ => false,
                        }
                    },
                }
            },
        }
    }

    /// Reads the value `name` of this key.
    pub fn get_raw_value(&self, storage: &Vec<(String, Json)>, name: &str) -> (r: Result<RegValue, RegError>)
        requires
            value_readable(storage@, self@.1, name@),
        ensures
            match r {
                Ok(v) => read_value(storage@, self@.1, name@) == Ok::<(Seq<u8>, RegType), Failure>(
                    (v.bytes@, v.vtype),
                ),
                Err(e) => read_value(storage@, self@.1, name@) == Err::<(Seq<u8>, RegType), Failure>(
                    e@,
                ),
            },
    {
        let ghost keys = self@.1;
        let c = Self::storage_subkey(storage, &self.sub_keys)?;
        let name_s = String::from_str(name);
        proof {
            assert(keys + seq![name@] =~= keys.push(name@));
            lemma_walk_then_kind(storage@, keys, seq![name@]);
            lemma_walk_then_kind(storage@, keys, seq![name@, "value"@]);
            lemma_walk_then_kind(storage@, keys, seq![name@, "vtype"@]);
            lemma_kind_at_step(c@, seq![name@]);
            lemma_kind_at_step(c@, seq![name@, "value"@]);
            lemma_kind_at_step(c@, seq![name@, "vtype"@]);
            assert(seq![name@, "value"@].drop_first() =~= seq!["value"@]);
            assert(seq![name@, "vtype"@].drop_first() =~= seq!["vtype"@]);
        }
        match find_key(c, &name_s) {
            None => Err(RegError::ValueNotFound(name_s)),
            Some(j) => {
                proof {
                    lemma_first_key_unique(c@, name@, j as int, key_pos(c@, name@));
                }
                let entry = &c[j];
                match &entry.1 {
                    Json::Object(m) => {
                        let text = Self::string_entry(m, "value");
                        let vt = Self::string_entry(m, "vtype");
                        let bytes = slice_to_vec(text.as_str().as_bytes());
                        let vtype = reg_type_from_name(vt);
                        Ok(RegValue { bytes, vtype })
                    },
                    _ => {
                        proof {
                            assert(false);
                        }
                        Err(RegError::NotAnObject)
                    },
                }
            },
        }
    }

    /// Reads the value `name` of this key.
    pub fn get_value(&self, storage: &Vec<(String, Json)>, name: &str) -> (r: Result<RegValue, RegError>)
        requires
            value_readable(storage@, self@.1, name@),
        ensures
            match r {
                Ok(v) => read_value(storage@, self@.1, name@) == Ok::<(Seq<u8>, RegType), Failure>(
                    (v.bytes@, v.vtype),
                ),
                Err(e) => read_value(storage@, self@.1, name@) == Err::<(Seq<u8>, RegType), Failure>(
                    e@,
                ),
            },
    {
        match self.get_raw_value(storage, name) {
            Ok(val) => Ok(val),
            Err(err) => Err(err),
        }
    }

    /// Whether `set_raw_value` can write `value` to this key: where the key is reached, the
    /// value's bytes are UTF-8.
    pub fn value_is_writable(&self, storage: &Vec<(String, Json)>, value: &RegValue) -> (r: bool)
        ensures
            r == (walk(storage@, self@.1) is Ok ==> valid_utf8(value.bytes@)),
    {
        match Self::storage_subkey(storage, &self.sub_keys) {
            Err(_) => true,
            Ok(_) => str_from_utf8(value.bytes.as_slice()).is_some(),
        }
    }

    /// Sets the value `name` of this key to `value`, stored as its bytes read as UTF-8 text
    /// and the name of its type.
    pub fn set_raw_value(&self, storage: &mut Vec<(String, Json)>, name: &str, value: &RegValue) -> (r:
        Result<(), RegError>)
        requires
            walk(old(storage)@, self@.1) is Ok ==> valid_utf8(value.bytes@),
        ensures
            value_written(
                old(storage)@,
                final(storage)@,
                self@.1,
                name@,
                value.bytes@,
                value.vtype,
                r,
            ),
    {
        let name_s = String::from_str(name);
        match Self::storage_subkey(storage, &self.sub_keys) {
            Err(e) => {
                return Err(e);
            },
            Ok(_) => {},
        }
        let text = match str_from_utf8(value.bytes.as_slice()) {
            Some(t) => String::from_str(t),
            None => {
                proof {
                    assert(false);
                }
                String::new()
            },
        };
        let vt = reg_type_name_string(value.vtype);
        let node = reg_value_node(text, vt);
        proof {
            assert(names(self.sub_keys@).skip(0) =~= names(self.sub_keys@));
        }
        place(storage, &self.sub_keys, 0, name_s, node);
        Ok(())
    }

    /// Sets the value `name` of this key to the registry value that `value` converts to,
    /// as `set_raw_value` stores it.
    pub fn set_value<T: ToRegValue>(&self, storage: &mut Vec<(String, Json)>, name: &str, value: &T) -> (r:
        Result<(), RegError>)
        requires
            walk(old(storage)@, self@.1) is Ok ==> valid_utf8(value.spec_reg_value().bytes@),
        ensures
            value_written(
                old(storage)@,
                final(storage)@,
                self@.1,
                name@,
                value.spec_reg_value().bytes@,
                value.spec_reg_value().vtype,
                r,
            ),
    {
        let v = value.to_reg_value();
        self.set_raw_value(storage, name, &v)
    }
}

} // verus!
