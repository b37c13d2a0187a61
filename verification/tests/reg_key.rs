use winreg::enums::RegDisposition::{REG_CREATED_NEW_KEY, REG_OPENED_EXISTING_KEY};
use winreg::enums::RegType::{REG_BINARY, REG_EXPAND_SZ, REG_SZ};
use winreg::enums::{HKEY_LOCAL_MACHINE, HKEY_PERFORMANCE_TEXT, HKEY_USERS};
use winreg::reg_key::RegKey;
use winreg::reg_value::RegValue;

#[test]
fn new_subkey_with_value() {
    let key = RegKey::predef(HKEY_PERFORMANCE_TEXT);
    let mut storage = RegKey::initial_storage(HKEY_PERFORMANCE_TEXT);

    let (new_key, dispo) = key.create_subkey(&mut storage, "NewKey");
    assert_eq!(dispo, REG_CREATED_NEW_KEY);
    let (_, dispo) = key.create_subkey(&mut storage, "NewKey");
    assert_eq!(dispo, REG_OPENED_EXISTING_KEY);
    assert_eq!(new_key, key.open_subkey(&storage, "NewKey").unwrap());

    let reg_value = RegValue {
        bytes: "value".as_bytes().to_vec(),
        vtype: REG_BINARY,
    };
    new_key.set_raw_value(&mut storage, "NewValue", &reg_value).unwrap();

    let new_value = new_key.get_value(&storage, "NewValue").unwrap();
    assert_eq!(reg_value, new_value);
}

#[test]
fn predef_hkey_users() {
    let key = RegKey::predef(HKEY_USERS);
    let storage = RegKey::initial_storage(HKEY_USERS);
    let _ = key.open_subkey(&storage, ".DEFAULT").unwrap();
    let _ = key.open_subkey(&storage, "S-1-5-18").unwrap();
    let _ = key.open_subkey(&storage, "S-1-5-19").unwrap();
    let _ = key.open_subkey(&storage, "S-1-5-20").unwrap();
    let _ = key
        .open_subkey(&storage, "S-1-5-21-206651429-2786145735-121611483-1001_Classes")
        .unwrap();

    let vol_env = key
        .open_subkey(
            &storage,
            "S-1-5-21-206651429-2786145735-121611483-1001/Volatile Environment",
        )
        .unwrap();
    let username = vol_env.get_value(&storage, "USERNAME").unwrap();
    assert_eq!(username.bytes, "bitranox".as_bytes());
    assert_eq!(username.vtype, REG_SZ);
}

#[test]
fn predef_hkey_local_machine() {
    let key = RegKey::predef(HKEY_LOCAL_MACHINE);
    let storage = RegKey::initial_storage(HKEY_LOCAL_MACHINE);

    let current_version = key
        .open_subkey(&storage, "SOFTWARE/Microsoft/Windows NT/CurrentVersion")
        .unwrap();
    let current_build = current_version.get_value(&storage, "CurrentBuild").unwrap();
    assert_eq!(current_build.bytes, "18363".as_bytes());
    assert_eq!(current_build.vtype, REG_SZ);

    let profile_list = current_version.open_subkey(&storage, "ProfileList").unwrap();

    let profile_image_path = profile_list
        .open_subkey(&storage, "S-1-5-18")
        .unwrap()
        .get_value(&storage, "ProfileImagePath")
        .unwrap();
    assert_eq!(
        profile_image_path.bytes,
        r"%systemroot%\system32\config\systemprofile".as_bytes()
    );
    assert_eq!(profile_image_path.vtype, REG_EXPAND_SZ);

    let profile_image_path = profile_list
        .open_subkey(&storage, "S-1-5-19")
        .unwrap()
        .get_value(&storage, "ProfileImagePath")
        .unwrap();
    assert_eq!(
        profile_image_path.bytes,
        r"%systemroot%\ServiceProfiles\LocalService".as_bytes()
    );
    assert_eq!(profile_image_path.vtype, REG_EXPAND_SZ);

    let profile_image_path = profile_list
        .open_subkey(&storage, "S-1-5-20")
        .unwrap()
        .get_value(&storage, "ProfileImagePath")
        .unwrap();
    assert_eq!(
        profile_image_path.bytes,
        r"%systemroot%\ServiceProfiles\NetworkService".as_bytes()
    );
    assert_eq!(profile_image_path.vtype, REG_EXPAND_SZ);

    let profile_image_path = profile_list
        .open_subkey(&storage, "S-1-5-21-206651429-2786145735-121611483-1001")
        .unwrap()
        .get_value(&storage, "ProfileImagePath")
        .unwrap();
    assert_eq!(profile_image_path.bytes, r"C:\Users\bitranox".as_bytes());
    assert_eq!(profile_image_path.vtype, REG_EXPAND_SZ);
}
