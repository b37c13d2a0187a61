use winreg::common::{to_utf16, v16_to_v8};
use winreg::enums::RegDisposition::{REG_CREATED_NEW_KEY, REG_OPENED_EXISTING_KEY};
use winreg::enums::RegType::{
    REG_BINARY, REG_DWORD, REG_DWORD_BIG_ENDIAN, REG_EXPAND_SZ, REG_FULL_RESOURCE_DESCRIPTOR,
    REG_LINK, REG_MULTI_SZ, REG_NONE, REG_QWORD, REG_RESOURCE_LIST, REG_RESOURCE_REQUIREMENTS_LIST,
    REG_SZ,
};
use winreg::enums::{
    predef_name, reg_type_from_name, reg_type_name_string, HKEY_CLASSES_ROOT, HKEY_CURRENT_CONFIG,
    HKEY_CURRENT_USER, HKEY_CURRENT_USER_LOCAL_SETTINGS, HKEY_DYN_DATA, HKEY_LOCAL_MACHINE,
    HKEY_PERFORMANCE_DATA, HKEY_PERFORMANCE_NLSTEXT, HKEY_PERFORMANCE_TEXT, HKEY_USERS,
};
use winreg::json::{Json, RegError};
use winreg::path::split_path;
use winreg::reg_key::RegKey;
use winreg::reg_value::RegValue;
use winreg::storage::parse_storage;
use winreg::types::ToRegValue;

fn strings(v: &[&str]) -> Vec<String> {
    v.iter().map(|s| s.to_string()).collect()
}

#[test]
fn split_path_components() {
    assert_eq!(split_path(""), strings(&[]));
    assert_eq!(split_path("a"), strings(&["a"]));
    assert_eq!(split_path("a/b"), strings(&["a", "b"]));
    assert_eq!(split_path("a//b/"), strings(&["a", "b"]));
    assert_eq!(split_path("/a"), strings(&["/", "a"]));
    assert_eq!(split_path("/"), strings(&["/"]));
    assert_eq!(split_path("."), strings(&["."]));
    assert_eq!(split_path("./a/./b/."), strings(&[".", "a", "b"]));
    assert_eq!(split_path("a/../b"), strings(&["a", "..", "b"]));
    assert_eq!(
        split_path("SOFTWARE/Microsoft/Windows NT"),
        strings(&["SOFTWARE", "Microsoft", "Windows NT"])
    );
    assert_eq!(split_path("é/ü"), strings(&["é", "ü"]));
}

#[test]
fn utf16_round_trip() {
    let bytes = vec![0u8, 1, 65, 127, 128, 255];
    let units = to_utf16(&bytes);
    assert_eq!(units, vec![0u16, 1, 65, 127, 128, 255]);
    assert_eq!(v16_to_v8(&units), bytes);
    assert_eq!(v16_to_v8(&[0x1234u16, 0xff00, 0x00ff]), vec![0x34u8, 0x00, 0xff]);
}

#[test]
fn predefined_key_names() {
    let cases = [
        (HKEY_CLASSES_ROOT, "HKEY_CLASSES_ROOT"),
        (HKEY_CURRENT_CONFIG, "HKEY_CURRENT_CONFIG"),
        (HKEY_CURRENT_USER, "HKEY_CURRENT_USER"),
        (HKEY_CURRENT_USER_LOCAL_SETTINGS, "HKEY_CURRENT_USER_LOCAL_SETTINGS"),
        (HKEY_DYN_DATA, "HKEY_DYN_DATA"),
        (HKEY_LOCAL_MACHINE, "HKEY_LOCAL_MACHINE"),
        (HKEY_PERFORMANCE_DATA, "HKEY_PERFORMANCE_DATA"),
        (HKEY_PERFORMANCE_NLSTEXT, "HKEY_PERFORMANCE_NLSTEXT"),
        (HKEY_PERFORMANCE_TEXT, "HKEY_PERFORMANCE_TEXT"),
        (HKEY_USERS, "HKEY_USERS"),
    ];
    for (h, name) in cases {
        assert_eq!(predef_name(h), name);
        assert_eq!(RegKey::predef(h).storage_name(), name);
    }
    assert_eq!(predef_name(-2147483646isize), "HKEY_LOCAL_MACHINE");
    assert_eq!(predef_name(0), "");
    assert_eq!(predef_name(12345), "");
}

#[test]
fn reg_type_names_round_trip() {
    let all = [
        REG_NONE,
        REG_SZ,
        REG_EXPAND_SZ,
        REG_BINARY,
        REG_DWORD,
        REG_DWORD_BIG_ENDIAN,
        REG_LINK,
        REG_MULTI_SZ,
        REG_RESOURCE_LIST,
        REG_FULL_RESOURCE_DESCRIPTOR,
        REG_RESOURCE_REQUIREMENTS_LIST,
        REG_QWORD,
    ];
    for t in all {
        assert_eq!(reg_type_from_name(&reg_type_name_string(t)), t);
    }
    assert_eq!(reg_type_name_string(REG_EXPAND_SZ), "REG_EXPAND_SZ");
    assert_eq!(reg_type_from_name(&"REG_SOMETHING".to_string()), REG_NONE);
    assert_eq!(reg_type_from_name(&"".to_string()), REG_NONE);
}

#[test]
fn open_subkey_errors() {
    let key = RegKey::predef(HKEY_USERS);
    let storage = RegKey::initial_storage(HKEY_USERS);
    assert_eq!(
        key.open_subkey(&storage, "Nobody"),
        Err(RegError::SubkeyNotFound("Nobody".to_string()))
    );
    assert_eq!(
        key.open_subkey(&storage, ".DEFAULT/Missing/More"),
        Err(RegError::SubkeyNotFound("Missing".to_string()))
    );
    let volatile = "S-1-5-21-206651429-2786145735-121611483-1001/Volatile Environment";
    assert_eq!(
        key.open_subkey(&storage, &format!("{volatile}/USERNAME/value")),
        Err(RegError::NotAnObject)
    );
    // a value is an object, so it opens as a key
    assert!(key.open_subkey(&storage, &format!("{volatile}/USERNAME")).is_ok());
    // the empty path opens the key itself
    assert_eq!(key.open_subkey(&storage, "").unwrap(), key);
}

#[test]
fn get_value_errors() {
    let key = RegKey::predef(HKEY_USERS);
    let storage = RegKey::initial_storage(HKEY_USERS);
    let default = key.open_subkey(&storage, ".DEFAULT").unwrap();
    assert!(default.value_is_readable(&storage, "Anything"));
    assert_eq!(
        default.get_raw_value(&storage, "Anything"),
        Err(RegError::ValueNotFound("Anything".to_string()))
    );
    // a subkey read as a value has no `value` string
    assert!(!key.value_is_readable(&storage, ".DEFAULT"));
    let (gone, _) = {
        let mut s2 = RegKey::initial_storage(HKEY_USERS);
        let made = key.create_subkey(&mut s2, "Gone");
        (made.0, s2)
    };
    assert_eq!(
        gone.get_raw_value(&storage, "x"),
        Err(RegError::SubkeyNotFound("Gone".to_string()))
    );
}

#[test]
fn set_value_on_missing_key_changes_nothing() {
    let key = RegKey::predef(HKEY_USERS);
    let mut storage = RegKey::initial_storage(HKEY_USERS);
    let mut other = RegKey::initial_storage(HKEY_USERS);
    let (missing, _) = key.create_subkey(&mut other, "Missing/Deeper");
    let value = RegValue { bytes: b"x".to_vec(), vtype: REG_SZ };
    assert_eq!(
        missing.set_raw_value(&mut storage, "v", &value),
        Err(RegError::SubkeyNotFound("Missing".to_string()))
    );
    assert_eq!(storage, RegKey::initial_storage(HKEY_USERS));
}

#[test]
fn create_nested_subkeys() {
    let key = RegKey::predef(HKEY_CLASSES_ROOT);
    let mut storage = RegKey::initial_storage(HKEY_CLASSES_ROOT);
    assert_eq!(storage, Vec::<(String, Json)>::new());
    assert!(key.can_create_subkey(&storage, "A/B/C"));
    let (c, dispo) = key.create_subkey(&mut storage, "A/B/C");
    assert_eq!(dispo, REG_CREATED_NEW_KEY);
    let (b, dispo) = key.create_subkey(&mut storage, "A/B");
    assert_eq!(dispo, REG_OPENED_EXISTING_KEY);
    assert_eq!(b.open_subkey(&storage, "C").unwrap(), c);
    let (_, dispo) = key.create_subkey(&mut storage, "A/B/D");
    assert_eq!(dispo, REG_CREATED_NEW_KEY);
    assert!(key.open_subkey(&storage, "A/B/D").is_ok());
    assert!(key.open_subkey(&storage, "A/B/C").is_ok());
    // a value on the way cannot be turned into a key
    let value = RegValue { bytes: b"text".to_vec(), vtype: REG_SZ };
    c.set_raw_value(&mut storage, "V", &value).unwrap();
    assert!(c.can_create_subkey(&storage, "V"));
    assert!(!c.can_create_subkey(&storage, "V/value"));
    assert!(!c.can_create_subkey(&storage, "V/value/deeper"));
    let (_, dispo) = c.create_subkey_with_flags(&mut storage, "V", 0);
    assert_eq!(dispo, REG_OPENED_EXISTING_KEY);
    let (_, dispo) = c.create_subkey_with_options_flags(&mut storage, "W", 0, 0);
    assert_eq!(dispo, REG_CREATED_NEW_KEY);
    assert_eq!(c.get_raw_value(&storage, "V").unwrap(), value);
}

#[test]
fn values_read_back_and_overwrite() {
    let key = RegKey::predef(HKEY_CURRENT_USER);
    let mut storage = RegKey::initial_storage(HKEY_CURRENT_USER);
    let (k, _) = key.create_subkey(&mut storage, "Software");
    let a = RegValue { bytes: "grüße".as_bytes().to_vec(), vtype: REG_EXPAND_SZ };
    let b = RegValue { bytes: b"other".to_vec(), vtype: REG_QWORD };
    k.set_raw_value(&mut storage, "a", &a).unwrap();
    k.set_raw_value(&mut storage, "b", &b).unwrap();
    assert_eq!(k.get_raw_value(&storage, "a").unwrap(), a);
    assert_eq!(k.get_value(&storage, "b").unwrap(), b);
    let a2 = RegValue { bytes: b"".to_vec(), vtype: REG_NONE };
    k.set_raw_value(&mut storage, "a", &a2).unwrap();
    assert_eq!(k.get_raw_value(&storage, "a").unwrap(), a2);
    assert_eq!(k.get_raw_value(&storage, "b").unwrap(), b);
    // writing a value at a key's name replaces that key
    let (_, _) = k.create_subkey(&mut storage, "sub/deeper");
    k.set_raw_value(&mut storage, "sub", &b).unwrap();
    assert_eq!(
        k.open_subkey(&storage, "sub/deeper"),
        Err(RegError::SubkeyNotFound("deeper".to_string()))
    );
}

struct Text(&'static str);

impl ToRegValue for Text {
    fn spec_reg_value(&self) -> RegValue {
        self.to_reg_value()
    }

    fn to_reg_value(&self) -> RegValue {
        RegValue { bytes: self.0.as_bytes().to_vec(), vtype: REG_SZ }
    }
}

#[test]
fn set_value_through_trait() {
    let key = RegKey::predef(HKEY_CURRENT_CONFIG);
    let mut storage = RegKey::initial_storage(HKEY_CURRENT_CONFIG);
    key.set_value(&mut storage, "Name", &Text("hello")).unwrap();
    let v = key.get_value(&storage, "Name").unwrap();
    assert_eq!(v.bytes, b"hello".to_vec());
    assert_eq!(v.vtype, REG_SZ);
    // on a key that is not there, the walk's error comes back, whatever the bytes
    let mut other = RegKey::initial_storage(HKEY_CURRENT_CONFIG);
    let (missing, _) = key.create_subkey(&mut other, "Missing");
    assert_eq!(
        missing.set_value(&mut storage, "Raw", &Raw(vec![0xff])),
        Err(RegError::SubkeyNotFound("Missing".to_string()))
    );
    key.set_value(&mut storage, "Raw", &Raw(b"raw".to_vec())).unwrap();
    assert_eq!(key.get_value(&storage, "Raw").unwrap(), Raw(b"raw".to_vec()).to_reg_value());
}

struct Raw(Vec<u8>);

impl ToRegValue for Raw {
    fn spec_reg_value(&self) -> RegValue {
        self.to_reg_value()
    }

    fn to_reg_value(&self) -> RegValue {
        RegValue { bytes: self.0.clone(), vtype: REG_BINARY }
    }
}

#[test]
fn open_with_flags_matches_open() {
    let key = RegKey::predef(HKEY_LOCAL_MACHINE);
    let storage = RegKey::initial_storage(HKEY_LOCAL_MACHINE);
    let a = key.open_subkey(&storage, "SOFTWARE/Microsoft").unwrap();
    let b = key.open_subkey_with_flags(&storage, "SOFTWARE/Microsoft", 0x20019).unwrap();
    let c = key
        .open_subkey_with_options_flags(&storage, "SOFTWARE/Microsoft", 0, 0x20019)
        .unwrap();
    assert_eq!(a, b);
    assert_eq!(a, c);
    assert_eq!(
        key.open_subkey_with_flags(&storage, "HARDWARE", 0),
        Err(RegError::SubkeyNotFound("HARDWARE".to_string()))
    );
}

#[test]
fn unknown_handle_starts_empty() {
    let key = RegKey::predef(7);
    assert_eq!(key.storage_name(), "");
    assert_eq!(RegKey::initial_storage(7), Vec::<(String, Json)>::new());
    assert_eq!(RegKey::initial_storage(HKEY_DYN_DATA), Vec::<(String, Json)>::new());
}

#[test]
fn open_joined_path_in_two_steps() {
    let key = RegKey::predef(HKEY_LOCAL_MACHINE);
    let storage = RegKey::initial_storage(HKEY_LOCAL_MACHINE);
    let joined = key.open_subkey(&storage, "SOFTWARE/Microsoft/Windows NT").unwrap();
    let first = key.open_subkey(&storage, "SOFTWARE").unwrap();
    let second = first.open_subkey(&storage, "Microsoft/Windows NT").unwrap();
    assert_eq!(joined, second);
    let top = key.open_subkey(&storage, "").unwrap();
    assert_eq!(top.open_subkey(&storage, "SOFTWARE").unwrap(), first);
    assert_eq!(
        key.open_subkey(&storage, "HARDWARE/Microsoft"),
        Err(RegError::SubkeyNotFound("HARDWARE".to_string()))
    );
    assert_eq!(
        key.open_subkey(&storage, "HARDWARE"),
        Err(RegError::SubkeyNotFound("HARDWARE".to_string()))
    );
}

#[test]
fn parse_storage_text() {
    let text = br#"{"Key": {"Sub": {}, "Name": {"value": "caf\u00e9", "vtype": "REG_EXPAND_SZ"}},
                    "Num": 12, "List": [1, 2], "Top": "text"}"#;
    let storage = parse_storage(text).unwrap();
    let key = RegKey::predef(HKEY_CURRENT_USER);
    let k = key.open_subkey(&storage, "Key").unwrap();
    assert!(k.open_subkey(&storage, "Sub").is_ok());
    let v = k.get_value(&storage, "Name").unwrap();
    assert_eq!(v.bytes, "café".as_bytes().to_vec());
    assert_eq!(v.vtype, REG_EXPAND_SZ);
    assert_eq!(key.open_subkey(&storage, "Num"), Err(RegError::NotAnObject));
    assert_eq!(key.open_subkey(&storage, "Top"), Err(RegError::NotAnObject));
    assert_eq!(storage.len(), 4);
    // a repeated name keeps one entry
    let storage = parse_storage(br#"{"a": {}, "a": {"b": {}}}"#).unwrap();
    assert_eq!(storage.len(), 1);
    assert!(key.open_subkey(&storage, "a/b").is_ok());
    // the empty object, and texts that are not an object
    assert_eq!(parse_storage(b"{}").unwrap(), Vec::<(String, Json)>::new());
    assert!(parse_storage(b"[1, 2]").is_err());
    assert!(parse_storage(b"{\"a\": ").is_err());
    assert!(parse_storage(b"").is_err());
}

#[test]
fn value_writable_check() {
    let key = RegKey::predef(HKEY_USERS);
    let storage = RegKey::initial_storage(HKEY_USERS);
    let good = RegValue { bytes: b"ok".to_vec(), vtype: REG_SZ };
    let bad = RegValue { bytes: vec![0xc3], vtype: REG_SZ };
    assert!(key.value_is_writable(&storage, &good));
    assert!(!key.value_is_writable(&storage, &bad));
    let mut other = RegKey::initial_storage(HKEY_USERS);
    let (missing, _) = key.create_subkey(&mut other, "Missing");
    assert!(missing.value_is_writable(&storage, &bad));
}
