use ironrdp_agent::client::{
    client_build, client_identity, client_name, client_name_from, current_platform, identity_of,
    missing_fields_message, platform_from, HostPlatform, MissingField, PlatformType, CLIENT_DIR,
};
use ironrdp_client::config::MissingField as Engine;

#[test]
fn versions_have_build_numbers() {
    assert_eq!(client_build("0.1.0"), 10);
    assert_eq!(client_build("1.2.3"), 123);
    assert_eq!(client_build("12.34.56"), 1596);
    assert_eq!(client_build(""), 0);
    assert_eq!(client_build("7"), 700);
    assert_eq!(client_build("1.x.3"), 103);
    assert_eq!(client_build("1.2.3-rc1"), 120);
    assert_eq!(client_build("1.2.3.4"), 123);
    assert_eq!(client_build("..5"), 5);
    assert_eq!(client_build("+1.2.3"), 123);
}

#[test]
fn build_numbers_saturate() {
    assert_eq!(client_build("4294967295.0.0"), u32::MAX);
    assert_eq!(client_build("42949672.9.5"), u32::MAX);
    assert_eq!(client_build("42949672.9.6"), u32::MAX);
    assert_eq!(client_build("42949672.9.4"), u32::MAX - 1);
    assert_eq!(client_build("4294967296.1.1"), 11);
}

#[test]
fn unknown_hosts_get_a_name() {
    assert_eq!(client_name_from(Some("box".to_owned())), "box");
    assert_eq!(client_name_from(None), "ironrdp-agent");
}

#[test]
fn platforms_are_announced() {
    assert_eq!(platform_from(HostPlatform::Windows), PlatformType::Windows);
    assert_eq!(platform_from(HostPlatform::Linux), PlatformType::Unix);
    assert_eq!(platform_from(HostPlatform::Mac), PlatformType::Macintosh);
    assert_eq!(platform_from(HostPlatform::Ios), PlatformType::Ios);
    assert_eq!(platform_from(HostPlatform::Android), PlatformType::Android);
    assert_eq!(platform_from(HostPlatform::Other), PlatformType::Unspecified);
}

#[test]
fn this_machine_has_an_identity() {
    let identity = client_identity("1.2.3");
    assert_eq!(identity.build, 123);
    assert_eq!(identity.dir, "C:\\Windows\\System32\\mstscax.dll");
    assert_eq!(identity.dir, CLIENT_DIR);
    let expected = whoami::hostname().unwrap_or_else(|_| "ironrdp-agent".to_owned());
    assert_eq!(identity.name, expected);
    assert_eq!(client_name(), expected);
    assert_eq!(identity.platform, current_platform());
    if whoami::platform() == whoami::Platform::Linux {
        assert_eq!(current_platform(), PlatformType::Unix);
    }
}

#[test]
fn identities_follow_the_machine() {
    let identity = identity_of("1.2.3", Some("box".to_owned()), HostPlatform::Mac);
    assert_eq!(identity.build, 123);
    assert_eq!(identity.dir, CLIENT_DIR);
    assert_eq!(identity.platform, PlatformType::Macintosh);
    assert_eq!(identity.name, "box");
    assert_eq!(identity_of("1", None, HostPlatform::Other).name, "ironrdp-agent");
}

#[test]
fn missing_fields_are_listed() {
    assert_eq!(missing_fields_message(&vec![]), "missing required fields: ");
    assert_eq!(
        missing_fields_message(&vec![MissingField::ServerAddress]),
        "missing required fields: server address"
    );
    assert_eq!(
        missing_fields_message(&vec![
            MissingField::ServerAddress,
            MissingField::Username,
            MissingField::Password,
            MissingField::GatewayUsername,
            MissingField::GatewayPassword,
            MissingField::RDCleanPathToken,
            MissingField::ClientBuild,
            MissingField::ClientDir,
            MissingField::Platform,
            MissingField::ClientName,
        ]),
        "missing required fields: server address, username, password, gateway username, \
         gateway password, RDCleanPath token, client build, client dir, platform, client name"
    );
}

#[test]
fn labels_are_those_of_the_engine() {
    for (field, engine) in [
        (MissingField::ServerAddress, Engine::ServerAddress),
        (MissingField::Username, Engine::Username),
        (MissingField::Password, Engine::Password),
        (MissingField::GatewayUsername, Engine::GatewayUsername),
        (MissingField::GatewayPassword, Engine::GatewayPassword),
        (MissingField::RDCleanPathToken, Engine::RDCleanPathToken),
        (MissingField::ClientBuild, Engine::ClientBuild),
        (MissingField::ClientDir, Engine::ClientDir),
        (MissingField::Platform, Engine::Platform),
        (MissingField::ClientName, Engine::ClientName),
    ] {
        assert_eq!(field.label(), engine.to_string());
    }
}
