//! The predefined root keys and the enumerations of the registry API.
use vstd::prelude::*;
pub use windows_sys::Win32::System::Registry::{
    HKEY, HKEY_CLASSES_ROOT, HKEY_CURRENT_CONFIG, HKEY_CURRENT_USER,
    HKEY_CURRENT_USER_LOCAL_SETTINGS, HKEY_DYN_DATA, HKEY_LOCAL_MACHINE, HKEY_PERFORMANCE_DATA,
    HKEY_PERFORMANCE_NLSTEXT, HKEY_PERFORMANCE_TEXT, HKEY_USERS,
};

verus! {

/// The ten predefined root-key handles of `windows_sys::Win32::System::Registry`, in the order
/// CLASSES_ROOT, CURRENT_CONFIG, CURRENT_USER, CURRENT_USER_LOCAL_SETTINGS, DYN_DATA,
/// LOCAL_MACHINE, PERFORMANCE_DATA, PERFORMANCE_NLSTEXT, PERFORMANCE_TEXT, USERS.
/// The contract states the values that the crate's source gives these constants
/// (32-bit patterns 0x8000_00xx, sign-extended to `isize`).
#[verifier::external_body]
pub(crate) fn predefined_handles() -> (r: [HKEY; 10])
    ensures
        r@ == seq![
            -2147483648isize, -2147483643isize, -2147483647isize, -2147483641isize,
            -2147483642isize, -2147483646isize, -2147483644isize, -2147483552isize,
            -2147483568isize, -2147483645isize,
        ],
{
    [
        HKEY_CLASSES_ROOT, HKEY_CURRENT_CONFIG, HKEY_CURRENT_USER,
        HKEY_CURRENT_USER_LOCAL_SETTINGS, HKEY_DYN_DATA, HKEY_LOCAL_MACHINE,
        HKEY_PERFORMANCE_DATA, HKEY_PERFORMANCE_NLSTEXT, HKEY_PERFORMANCE_TEXT, HKEY_USERS,
    ]
}

/// The name under which the storage of a predefined key is kept: the constant's own name
/// for each of the ten predefined handles, and the empty name for any other handle.
pub open spec fn predef_key_name(hkey: isize) -> Seq<char> {
    if hkey == -2147483648isize {
        "HKEY_CLASSES_ROOT"@
    } else if hkey == -2147483643isize {
        "HKEY_CURRENT_CONFIG"@
    } else if hkey == -2147483647isize {
        "HKEY_CURRENT_USER"@
    } else if hkey == -2147483641isize {
        "HKEY_CURRENT_USER_LOCAL_SETTINGS"@
    } else if hkey == -2147483642isize {
        "HKEY_DYN_DATA"@
    } else if hkey == -2147483646isize {
        "HKEY_LOCAL_MACHINE"@
    } else if hkey == -2147483644isize {
        "HKEY_PERFORMANCE_DATA"@
    } else if hkey == -2147483552isize {
        "HKEY_PERFORMANCE_NLSTEXT"@
    } else if hkey == -2147483568isize {
        "HKEY_PERFORMANCE_TEXT"@
    } else if hkey == -2147483645isize {
        "HKEY_USERS"@
    } else {
        Seq::empty()
    }
}

/// The storage name of a predefined key handle.
pub fn predef_name(hkey: HKEY) -> (r: String)
    ensures
        r@ == predef_key_name(hkey),
{
    let hs = predefined_handles();
    if hkey == hs[0] {
        String::from_str("HKEY_CLASSES_ROOT")
    } else if hkey == hs[1] {
        String::from_str("HKEY_CURRENT_CONFIG")
    } else if hkey == hs[2] {
        String::from_str("HKEY_CURRENT_USER")
    } else if hkey == hs[3] {
        String::from_str("HKEY_CURRENT_USER_LOCAL_SETTINGS")
    } else if hkey == hs[4] {
        String::from_str("HKEY_DYN_DATA")
    } else if hkey == hs[5] {
        String::from_str("HKEY_LOCAL_MACHINE")
    } else if hkey == hs[6] {
        String::from_str("HKEY_PERFORMANCE_DATA")
    } else if hkey == hs[7] {
        String::from_str("HKEY_PERFORMANCE_NLSTEXT")
    } else if hkey == hs[8] {
        String::from_str("HKEY_PERFORMANCE_TEXT")
    } else if hkey == hs[9] {
        String::from_str("HKEY_USERS")
    } else {
        String::new()
    }
}

/// The kinds of data a registry value holds.
#[derive(Debug, Clone, Copy, PartialEq, Eq, Structural)]
pub enum RegType {
    REG_NONE,
    REG_SZ,
    REG_EXPAND_SZ,
    REG_BINARY,
    REG_DWORD,
    REG_DWORD_BIG_ENDIAN,
    REG_LINK,
    REG_MULTI_SZ,
    REG_RESOURCE_LIST,
    REG_FULL_RESOURCE_DESCRIPTOR,
    REG_RESOURCE_REQUIREMENTS_LIST,
    REG_QWORD,
}

/// Whether a key was made by a create request or was there before.
#[derive(Debug, Clone, Copy, PartialEq, Eq, Structural)]
pub enum RegDisposition {
    REG_CREATED_NEW_KEY,
    REG_OPENED_EXISTING_KEY,
}

/// The name under which a value type is stored.
pub open spec fn reg_type_name(t: RegType) -> Seq<char> {
    match t {
        RegType::REG_NONE => "REG_NONE"@,
        RegType::REG_SZ => "REG_SZ"@,
        RegType::REG_EXPAND_SZ => "REG_EXPAND_SZ"@,
        RegType::REG_BINARY => "REG_BINARY"@,
        RegType::REG_DWORD => "REG_DWORD"@,
        RegType::REG_DWORD_BIG_ENDIAN => "REG_DWORD_BIG_ENDIAN"@,
        RegType::REG_LINK => "REG_LINK"@,
        RegType::REG_MULTI_SZ => "REG_MULTI_SZ"@,
        RegType::REG_RESOURCE_LIST => "REG_RESOURCE_LIST"@,
        RegType::REG_FULL_RESOURCE_DESCRIPTOR => "REG_FULL_RESOURCE_DESCRIPTOR"@,
        RegType::REG_RESOURCE_REQUIREMENTS_LIST => "REG_RESOURCE_REQUIREMENTS_LIST"@,
        RegType::REG_QWORD => "REG_QWORD"@,
    }
}

/// The value type a stored name stands for; a name that is none of the twelve reads as `REG_NONE`.
pub open spec fn reg_type_of_name(s: Seq<char>) -> RegType {
    if s == "REG_SZ"@ {
        RegType::REG_SZ
    } else if s == "REG_EXPAND_SZ"@ {
        RegType::REG_EXPAND_SZ
    } else if s == "REG_BINARY"@ {
        RegType::REG_BINARY
    } else if s == "REG_DWORD"@ {
        RegType::REG_DWORD
    } else if s == "REG_DWORD_BIG_ENDIAN"@ {
        RegType::REG_DWORD_BIG_ENDIAN
    } else if s == "REG_LINK"@ {
        RegType::REG_LINK
    } else if s == "REG_MULTI_SZ"@ {
        RegType::REG_MULTI_SZ
    } else if s == "REG_RESOURCE_LIST"@ {
        RegType::REG_RESOURCE_LIST
    } else if s == "REG_FULL_RESOURCE_DESCRIPTOR"@ {
        RegType::REG_FULL_RESOURCE_DESCRIPTOR
    } else if s == "REG_RESOURCE_REQUIREMENTS_LIST"@ {
        RegType::REG_RESOURCE_REQUIREMENTS_LIST
    } else if s == "REG_QWORD"@ {
        RegType::REG_QWORD
    } else {
        RegType::REG_NONE
    }
}

/// The stored name of a value type.
pub fn reg_type_name_string(t: RegType) -> (r: String)
    ensures
        r@ == reg_type_name(t),
{
    match t {
        RegType::REG_NONE => String::from_str("REG_NONE"),
        RegType::REG_SZ => String::from_str("REG_SZ"),
        RegType::REG_EXPAND_SZ => String::from_str("REG_EXPAND_SZ"),
        RegType::REG_BINARY => String::from_str("REG_BINARY"),
        RegType::REG_DWORD => String::from_str("REG_DWORD"),
        RegType::REG_DWORD_BIG_ENDIAN => String::from_str("REG_DWORD_BIG_ENDIAN"),
        RegType::REG_LINK => String::from_str("REG_LINK"),
        RegType::REG_MULTI_SZ => String::from_str("REG_MULTI_SZ"),
        RegType::REG_RESOURCE_LIST => String::from_str("REG_RESOURCE_LIST"),
        RegType::REG_FULL_RESOURCE_DESCRIPTOR => String::from_str("REG_FULL_RESOURCE_DESCRIPTOR"),
        RegType::REG_RESOURCE_REQUIREMENTS_LIST => String::from_str("REG_RESOURCE_REQUIREMENTS_LIST"),
        RegType::REG_QWORD => String::from_str("REG_QWORD"),
    }
}

/// The value type a stored name stands for.
pub fn reg_type_from_name(s: &String) -> (r: RegType)
    ensures
        r == reg_type_of_name(s@),
{
    if *s == String::from_str("REG_SZ") {
        RegType::REG_SZ
    } else if *s == String::from_str("REG_EXPAND_SZ") {
        RegType::REG_EXPAND_SZ
    } else if *s == String::from_str("REG_BINARY") {
        RegType::REG_BINARY
    } else if *s == String::from_str("REG_DWORD") {
        RegType::REG_DWORD
    } else if *s == String::from_str("REG_DWORD_BIG_ENDIAN") {
        RegType::REG_DWORD_BIG_ENDIAN
    } else if *s == String::from_str("REG_LINK") {
        RegType::REG_LINK
    } else if *s == String::from_str("REG_MULTI_SZ") {
        RegType::REG_MULTI_SZ
    } else if *s == String::from_str("REG_RESOURCE_LIST") {
        RegType::REG_RESOURCE_LIST
    } else if *s == String::from_str("REG_FULL_RESOURCE_DESCRIPTOR") {
        RegType::REG_FULL_RESOURCE_DESCRIPTOR
    } else if *s == String::from_str("REG_RESOURCE_REQUIREMENTS_LIST") {
        RegType::REG_RESOURCE_REQUIREMENTS_LIST
    } else if *s == String::from_str("REG_QWORD") {
        RegType::REG_QWORD
    } else {
        RegType::REG_NONE
    }
}

/// Reading back the stored name of a value type gives the same type.
pub proof fn lemma_reg_type_name_round_trip(t: RegType)
    ensures
        reg_type_of_name(reg_type_name(t)) == t,
{
    reveal_strlit("REG_NONE");
    reveal_strlit("REG_SZ");
    reveal_strlit("REG_EXPAND_SZ");
    reveal_strlit("REG_BINARY");
    reveal_strlit("REG_DWORD");
    reveal_strlit("REG_DWORD_BIG_ENDIAN");
    reveal_strlit("REG_LINK");
    reveal_strlit("REG_MULTI_SZ");
    reveal_strlit("REG_RESOURCE_LIST");
    reveal_strlit("REG_FULL_RESOURCE_DESCRIPTOR");
    reveal_strlit("REG_RESOURCE_REQUIREMENTS_LIST");
    reveal_strlit("REG_QWORD");
    assert("REG_NONE"@.len() == 8 && "REG_SZ"@.len() == 6 && "REG_EXPAND_SZ"@.len() == 13);
    assert("REG_BINARY"@.len() == 10 && "REG_DWORD"@.len() == 9);
    assert("REG_DWORD_BIG_ENDIAN"@.len() == 20 && "REG_LINK"@.len() == 8);
    assert("REG_MULTI_SZ"@.len() == 12 && "REG_RESOURCE_LIST"@.len() == 17);
    assert("REG_FULL_RESOURCE_DESCRIPTOR"@.len() == 28);
    assert("REG_RESOURCE_REQUIREMENTS_LIST"@.len() == 30 && "REG_QWORD"@.len() == 9);
    assert("REG_NONE"@[4] != "REG_LINK"@[4]);
    assert("REG_DWORD"@[4] != "REG_QWORD"@[4]);
    assert("REG_NONE"@ != "REG_LINK"@);
    assert("REG_DWORD"@ != "REG_QWORD"@);
}

/// Each value type is stored under its own identifier, and each identifier reads back as
/// that type: `REG_NONE` as `REG_NONE`, `REG_SZ` as `REG_SZ`, and so on for all twelve.
pub proof fn lemma_reg_type_names()
    ensures
        reg_type_name(RegType::REG_NONE) == "REG_NONE"@,
        reg_type_name(RegType::REG_SZ) == "REG_SZ"@,
        reg_type_name(RegType::REG_EXPAND_SZ) == "REG_EXPAND_SZ"@,
        reg_type_name(RegType::REG_BINARY) == "REG_BINARY"@,
        reg_type_name(RegType::REG_DWORD) == "REG_DWORD"@,
        reg_type_name(RegType::REG_DWORD_BIG_ENDIAN) == "REG_DWORD_BIG_ENDIAN"@,
        reg_type_name(RegType::REG_LINK) == "REG_LINK"@,
        reg_type_name(RegType::REG_MULTI_SZ) == "REG_MULTI_SZ"@,
        reg_type_name(RegType::REG_RESOURCE_LIST) == "REG_RESOURCE_LIST"@,
        reg_type_name(RegType::REG_FULL_RESOURCE_DESCRIPTOR) == "REG_FULL_RESOURCE_DESCRIPTOR"@,
        reg_type_name(RegType::REG_RESOURCE_REQUIREMENTS_LIST) == "REG_RESOURCE_REQUIREMENTS_LIST"@,
        reg_type_name(RegType::REG_QWORD) == "REG_QWORD"@,
        reg_type_of_name("REG_NONE"@) == RegType::REG_NONE,
        reg_type_of_name("REG_SZ"@) == RegType::REG_SZ,
        reg_type_of_name("REG_EXPAND_SZ"@) == RegType::REG_EXPAND_SZ,
        reg_type_of_name("REG_BINARY"@) == RegType::REG_BINARY,
        reg_type_of_name("REG_DWORD"@) == RegType::REG_DWORD,
        reg_type_of_name("REG_DWORD_BIG_ENDIAN"@) == RegType::REG_DWORD_BIG_ENDIAN,
        reg_type_of_name("REG_LINK"@) == RegType::REG_LINK,
        reg_type_of_name("REG_MULTI_SZ"@) == RegType::REG_MULTI_SZ,
        reg_type_of_name("REG_RESOURCE_LIST"@) == RegType::REG_RESOURCE_LIST,
        reg_type_of_name("REG_FULL_RESOURCE_DESCRIPTOR"@) == RegType::REG_FULL_RESOURCE_DESCRIPTOR,
        reg_type_of_name("REG_RESOURCE_REQUIREMENTS_LIST"@) == RegType::REG_RESOURCE_REQUIREMENTS_LIST,
        reg_type_of_name("REG_QWORD"@) == RegType::REG_QWORD,
{
    lemma_reg_type_name_round_trip(RegType::REG_NONE);
    lemma_reg_type_name_round_trip(RegType::REG_SZ);
    lemma_reg_type_name_round_trip(RegType::REG_EXPAND_SZ);
    lemma_reg_type_name_round_trip(RegType::REG_BINARY);
    lemma_reg_type_name_round_trip(RegType::REG_DWORD);
    lemma_reg_type_name_round_trip(RegType::REG_DWORD_BIG_ENDIAN);
    lemma_reg_type_name_round_trip(RegType::REG_LINK);
    lemma_reg_type_name_round_trip(RegType::REG_MULTI_SZ);
    lemma_reg_type_name_round_trip(RegType::REG_RESOURCE_LIST);
    lemma_reg_type_name_round_trip(RegType::REG_FULL_RESOURCE_DESCRIPTOR);
    lemma_reg_type_name_round_trip(RegType::REG_RESOURCE_REQUIREMENTS_LIST);
    lemma_reg_type_name_round_trip(RegType::REG_QWORD);
}

} // verus!
