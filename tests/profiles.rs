use manderrow::games::{InstanceType, PackageLoader, StorePlatformMetadata};
use manderrow::thunderstore::{decode_profile_data, FullName, ProfileDataError, Version};

#[test]
fn full_name_splits_at_first_hyphen() {
    let n = FullName::parse("Owner-Mod-Name").unwrap();
    assert_eq!(n.namespace(), "Owner");
    assert_eq!(n.name(), "Mod-Name");
    assert_eq!(n.components(), ("Owner", "Mod-Name"));
    assert_eq!(n.as_str(), "Owner-Mod-Name");
    assert_eq!(n.clone().into_string(), "Owner-Mod-Name".to_string());
}

#[test]
fn full_name_edges() {
    assert!(FullName::parse("NoHyphen").is_none());
    assert!(FullName::parse("").is_none());
    let n = FullName::parse("-x").unwrap();
    assert_eq!(n.components(), ("", "x"));
    let n = FullName::parse("ü-é").unwrap();
    assert_eq!(n.components(), ("ü", "é"));
}

#[test]
fn version_to_string() {
    assert_eq!(Version { major: 1, minor: 20, patch: 300 }.to_string(), "1.20.300");
    assert_eq!(Version { major: 0, minor: 0, patch: 0 }.to_string(), "0.0.0");
    assert_eq!(
        Version { major: u64::MAX, minor: 9, patch: 10 }.to_string(),
        "18446744073709551615.9.10"
    );
}

#[test]
fn profile_data_decodes() {
    assert_eq!(decode_profile_data(b"#r2modman\naGVsbG8=").unwrap(), b"hello".to_vec());
    assert_eq!(decode_profile_data(b"#r2modman\n").unwrap(), Vec::<u8>::new());
}

#[test]
fn profile_data_errors() {
    assert_eq!(decode_profile_data(b"#r2mod").unwrap_err(), ProfileDataError::Truncated);
    assert_eq!(decode_profile_data(b"#r2modmaX\naGVsbG8=").unwrap_err(), ProfileDataError::InvalidPrefix);
    assert_eq!(decode_profile_data(b"#r2modman\n!!!").unwrap_err(), ProfileDataError::InvalidBase64);
}

#[test]
fn loader_names_round_trip() {
    let all = [
        PackageLoader::BepInEx,
        PackageLoader::MelonLoader,
        PackageLoader::NorthStar,
        PackageLoader::GodotML,
        PackageLoader::AncientDungeonVR,
        PackageLoader::ShimLoader,
        PackageLoader::Lovely,
        PackageLoader::ReturnOfModding,
        PackageLoader::GDWeave,
    ];
    for l in all {
        assert_eq!(PackageLoader::from_name(l.as_str()), Some(l));
    }
    assert_eq!(PackageLoader::BepInEx.as_str(), "BepInEx");
    assert_eq!(PackageLoader::GDWeave.as_str(), "GDWeave");
    assert_eq!(PackageLoader::from_name("bepinex"), None);
    assert_eq!(PackageLoader::from_name(""), None);
}

#[test]
fn steam_identifiers() {
    let s = StorePlatformMetadata::Steam { store_identifier: "1966720".to_string() };
    assert_eq!(s.steam_or_direct(), Some("1966720"));
    let s = StorePlatformMetadata::SteamDirect { store_identifier: "42".to_string() };
    assert_eq!(s.steam_or_direct(), Some("42"));
    let s = StorePlatformMetadata::Epic { store_identifier: "x".to_string() };
    assert_eq!(s.steam_or_direct(), None);
    assert_eq!(StorePlatformMetadata::Oculus.steam_or_direct(), None);
    assert_ne!(InstanceType::Game, InstanceType::Server);
}
