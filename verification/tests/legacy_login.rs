use sl_viewer::legacy_login::{
    classify_legacy_login_name, normalize_legacy_passwd, split_legacy_name, LegacyLoginName,
};

#[test]
fn normalize_preserves_legacy_prefix() {
    assert_eq!(normalize_legacy_passwd("$1$alreadyhashed"), "$1$alreadyhashed");
}

#[test]
fn normalize_hashes_plain_text() {
    assert_eq!(normalize_legacy_passwd("secret"), "$1$5ebe2294ecd0e0f08eab7690d2a6ee69");
}

#[test]
fn split_returns_last_resident_when_space_suffix() {
    assert_eq!(
        split_legacy_name("First Last"),
        Some((String::from("First"), String::from("Last")))
    );
}

#[test]
fn split_handles_dots_runs_of_spaces_and_single_words() {
    assert_eq!(
        split_legacy_name("  Ada.Lovelace "),
        Some((String::from("Ada"), String::from("Lovelace")))
    );
    assert_eq!(
        split_legacy_name("Ada   von  Lovelace"),
        Some((String::from("Ada"), String::from("von Lovelace")))
    );
    assert_eq!(split_legacy_name("Ada"), None);
    assert_eq!(split_legacy_name("   "), None);
    assert_eq!(
        split_legacy_name(".Ada Lovelace"),
        Some((String::from(".Ada"), String::from("Lovelace")))
    );
}

#[test]
fn classify_defaults_surname_to_resident() {
    assert_eq!(
        classify_legacy_login_name(" Ada "),
        LegacyLoginName::new(String::from("Ada"), String::from("Resident"))
    );
    assert_eq!(
        classify_legacy_login_name(""),
        LegacyLoginName::new(String::new(), String::new())
    );
    assert_eq!(
        classify_legacy_login_name("Ada.Lovelace"),
        LegacyLoginName::new(String::from("Ada"), String::from("Lovelace"))
    );
}

#[test]
fn md5_form_of_empty_password() {
    assert_eq!(normalize_legacy_passwd(""), "$1$d41d8cd98f00b204e9800998ecf8427e");
}
