//! What the outside client engine makes of connection properties, and who the client says it is.

use ironrdp_client::config::{Config, ConfigBuilder, MissingField as RdpMissingField};
use ironrdp_pdu::rdp::capability_sets::MajorPlatformType;
use ironrdp_propertyset::PropertySet;
use vstd::prelude::*;

use crate::properties::{property_map, PropertyMap};
use crate::text::{number_value, read_number, to_chars};
use crate::wire::opt_text;

pub mod laws;

verus! {

// ---------------------------------------------------------------------------
// Required fields
// ---------------------------------------------------------------------------

/// A setting without which no session can be opened.
#[derive(Debug, Clone, Copy, PartialEq, Eq)]
pub enum MissingField {
    /// Target server address (host[:port]).
    ServerAddress,
    /// RDP account user name.
    Username,
    /// RDP account password.
    Password,
    /// Gateway user name.
    GatewayUsername,
    /// Gateway password.
    GatewayPassword,
    /// RDCleanPath authentication token.
    RDCleanPathToken,
    /// Client build number.
    ClientBuild,
    /// Client directory path.
    ClientDir,
    /// Client platform.
    Platform,
    /// Client computer name.
    ClientName,
}

impl MissingField {
    /// What the field is called.
    pub open spec fn name(self) -> Seq<char> {
        match self {
            MissingField::ServerAddress => "server address"@,
            MissingField::Username => "username"@,
            MissingField::Password => "password"@,
            MissingField::GatewayUsername => "gateway username"@,
            MissingField::GatewayPassword => "gateway password"@,
            MissingField::RDCleanPathToken => "RDCleanPath token"@,
            MissingField::ClientBuild => "client build"@,
            MissingField::ClientDir => "client dir"@,
            MissingField::Platform => "platform"@,
            MissingField::ClientName => "client name"@,
        }
    }

    /// The daemon supplies the field itself.
    pub open spec fn is_identity(self) -> bool {
        ||| self is ClientBuild
        ||| self is ClientDir
        ||| self is Platform
        ||| self is ClientName
    }

    /// What the field is called.
    pub fn label(&self) -> (label: &'static str)
        ensures
            label@ == self.name(),
    {
        match self {
            MissingField::ServerAddress => "server address",
            MissingField::Username => "username",
            MissingField::Password => "password",
            MissingField::GatewayUsername => "gateway username",
            MissingField::GatewayPassword => "gateway password",
            MissingField::RDCleanPathToken => "RDCleanPath token",
            MissingField::ClientBuild => "client build",
            MissingField::ClientDir => "client dir",
            MissingField::Platform => "platform",
            MissingField::ClientName => "client name",
        }
    }

    /// Whether the daemon supplies the field itself.
    pub fn is_supplied(&self) -> (supplied: bool)
        ensures
            supplied == self.is_identity(),
    {
        match self {
            MissingField::ClientBuild => true,
            MissingField::ClientDir => true,
            MissingField::Platform => true,
            MissingField::ClientName => true,
            _ => false,
        }
    }
}

/// The fields that the daemon does not supply itself.
pub open spec fn not_supplied(fields: Seq<MissingField>) -> Seq<MissingField> {
    fields.filter(|field: MissingField| !field.is_identity())
}

/// The names of `fields`, separated by commas.
pub open spec fn names(fields: Seq<MissingField>) -> Seq<char>
    decreases fields.len(),
{
    if fields.len() == 0 {
        Seq::empty()
    } else if fields.len() == 1 {
        fields[0].name()
    } else {
        names(fields.drop_last()) + ", "@ + fields.last().name()
    }
}

/// The complaint that `fields` are missing.
pub open spec fn missing_fields_text(fields: Seq<MissingField>) -> Seq<char> {
    "missing required fields: "@ + names(fields)
}

/// The complaint that `fields` are missing.
pub fn missing_fields_message(fields: &Vec<MissingField>) -> (message: String)
    ensures
        message@ == missing_fields_text(fields@),
{
    let mut message: String = "missing required fields: ".to_owned();
    assert(fields@.take(0) =~= Seq::empty());
    assert(message@ =~= missing_fields_text(fields@.take(0)));
    for i in 0..fields.len()
        invariant
            message@ == missing_fields_text(fields@.take(i as int)),
    {
        assert(fields@.take(i + 1).drop_last() =~= fields@.take(i as int));
        if i > 0 {
            message.append(", ");
        }
        message.append(fields[i].label());
        assert(message@ =~= missing_fields_text(fields@.take(i + 1)));
    }
    assert(fields@.take(fields@.len() as int) =~= fields@);
    message
}

// ---------------------------------------------------------------------------
// The client's identity
// ---------------------------------------------------------------------------

/// The system that the client runs on.
#[derive(Debug, Clone, Copy, PartialEq, Eq)]
pub enum HostPlatform {
    /// Windows.
    Windows,
    /// Linux.
    Linux,
    /// macOS.
    Mac,
    /// iOS.
    Ios,
    /// Android.
    Android,
    /// Any other.
    Other,
}

/// The platform that the client announces.
#[derive(Debug, Clone, Copy, PartialEq, Eq)]
pub enum PlatformType {
    /// Windows.
    Windows,
    /// Some Unix.
    Unix,
    /// Macintosh.
    Macintosh,
    /// iOS.
    Ios,
    /// Android.
    Android,
    /// None in particular.
    Unspecified,
}

/// Who the client says it is.
#[derive(Debug, Clone, PartialEq, Eq)]
pub struct ClientIdentity {
    /// Its build number.
    pub build: u32,
    /// The path of its directory.
    pub dir: String,
    /// Its platform.
    pub platform: PlatformType,
    /// The name of its computer.
    pub name: String,
}

/// The mathematical value of a [`ClientIdentity`].
#[verifier::ext_equal]
pub struct IdentityView {
    pub build: u32,
    pub dir: Seq<char>,
    pub platform: PlatformType,
    pub name: Seq<char>,
}

impl View for ClientIdentity {
    type V = IdentityView;

    open spec fn view(&self) -> IdentityView {
        IdentityView {
            build: self.build,
            dir: self.dir@,
            platform: self.platform,
            name: self.name@,
        }
    }
}

/// The parts of `text` between dots.
pub open spec fn dotted_parts(text: Seq<char>) -> Seq<Seq<char>>
    decreases text.len(),
{
    if text.len() == 0 {
        seq![Seq::empty()]
    } else {
        let parts = dotted_parts(text.drop_last());
        if text.last() == '.' {
            parts.push(Seq::empty())
        } else {
            parts.drop_last().push(parts.last().push(text.last()))
        }
    }
}

/// Part `index` of a version, as a number; zero where there is no such part or it is none.
pub open spec fn version_number(version: Seq<char>, index: int) -> int {
    if index < dotted_parts(version).len() {
        match number_value(dotted_parts(version)[index], 10, u32::MAX as int) {
            Ok(number) => number,
            Err(_) => 0,
        }
    } else {
        0
    }
}

/// The build number of a version: `major * 100 + minor * 10 + patch`, as far as a `u32` goes.
pub open spec fn build_number(version: Seq<char>) -> u32 {
    let number = version_number(version, 0) * 100 + version_number(version, 1) * 10
        + version_number(version, 2);
    if number <= u32::MAX {
        number as u32
    } else {
        u32::MAX
    }
}

/// The mathematical value of the parts of a text.
spec fn part_views(parts: Seq<Vec<char>>) -> Seq<Seq<char>> {
    parts.map_values(|part: Vec<char>| part@)
}

fn split_at_dots(text: &str) -> (parts: Vec<Vec<char>>)
    ensures
        part_views(parts@) == dotted_parts(text@),
{
    let chars: Vec<char> = to_chars(text);
    let mut parts: Vec<Vec<char>> = Vec::new();
    let mut part: Vec<char> = Vec::new();
    assert(chars@.take(0) =~= Seq::empty());
    assert(part_views(parts@).push(part@) =~= dotted_parts(chars@.take(0)));
    for i in 0..chars.len()
        invariant
            chars@ == text@,
            part_views(parts@).push(part@) == dotted_parts(chars@.take(i as int)),
    {
        let ghost before = part_views(parts@).push(part@);
        let ghost taken = chars@.take(i + 1);
        assert(taken.drop_last() =~= chars@.take(i as int));
        assert(before.drop_last() =~= part_views(parts@));
        if chars[i] == '.' {
            parts.push(part);
            part = Vec::new();
            assert(part@ =~= Seq::empty());
            assert(part_views(parts@) =~= before);
        } else {
            part.push(chars[i]);
        }
        assert(part_views(parts@).push(part@) =~= dotted_parts(taken));
    }
    assert(chars@.take(chars@.len() as int) =~= chars@);
    let ghost before = part_views(parts@).push(part@);
    parts.push(part);
    assert(part_views(parts@) =~= before);
    parts
}

fn number_of_part(parts: &Vec<Vec<char>>, index: usize) -> (number: u32)
    ensures
        number == if index < parts.len() {
            match number_value(parts@[index as int]@, 10, u32::MAX as int) {
                Ok(number) => number,
                Err(_) => 0,
            }
        } else {
            0
        },
{
    if index < parts.len() {
        assert(parts@[index as int]@.skip(0) =~= parts@[index as int]@);
        match read_number(&parts[index], 0, 10, u32::MAX) {
            Ok(number) => number,
            Err(_) => 0,
        }
    } else {
        0
    }
}

/// Derives a build number from a version (`major*100 + minor*10 + patch`).
pub fn client_build(version: &str) -> (build: u32)
    ensures
        build == build_number(version@),
{
    let parts: Vec<Vec<char>> = split_at_dots(version);
    assert(part_views(parts@).len() == parts.len());
    assert(forall|i: int| 0 <= i < parts.len() ==> part_views(parts@)[i] == parts@[i]@);
    let major: u32 = number_of_part(&parts, 0);
    let minor: u32 = number_of_part(&parts, 1);
    let patch: u32 = number_of_part(&parts, 2);
    let number: u64 = major as u64 * 100 + minor as u64 * 10 + patch as u64;
    if number <= u32::MAX as u64 {
        number as u32
    } else {
        u32::MAX
    }
}

/// The name of the computer, where it is known, and else one of our own.
pub open spec fn name_of(hostname: Option<Seq<char>>) -> Seq<char> {
    match hostname {
        Some(hostname) => hostname,
        None => "ironrdp-agent"@,
    }
}

/// The platform to announce on a system.
pub open spec fn platform_of(host: HostPlatform) -> PlatformType {
    match host {
        HostPlatform::Windows => PlatformType::Windows,
        HostPlatform::Linux => PlatformType::Unix,
        HostPlatform::Mac => PlatformType::Macintosh,
        HostPlatform::Ios => PlatformType::Ios,
        HostPlatform::Android => PlatformType::Android,
        HostPlatform::Other => PlatformType::Unspecified,
    }
}

/// The name of the computer, where it is known, and else one of our own.
pub fn client_name_from(hostname: Option<String>) -> (name: String)
    ensures
        name@ == name_of(opt_text(hostname)),
{
    match hostname {
        Some(hostname) => hostname,
        None => "ironrdp-agent".to_owned(),
    }
}

/// The platform to announce on a system.
pub fn platform_from(host: HostPlatform) -> (platform: PlatformType)
    ensures
        platform == platform_of(host),
{
    match host {
        HostPlatform::Windows => PlatformType::Windows,
        HostPlatform::Linux => PlatformType::Unix,
        HostPlatform::Mac => PlatformType::Macintosh,
        HostPlatform::Ios => PlatformType::Ios,
        HostPlatform::Android => PlatformType::Android,
        HostPlatform::Other => PlatformType::Unspecified,
    }
}

/// `whoami::hostname`, the name of the computer where it can be had. It rests on the machine, so
/// nothing is claimed of it.
#[verifier::external_body]
fn hostname() -> (name: Option<String>) {
    whoami::hostname().ok()
}

/// `whoami::platform`, the system that this runs on. It rests on the machine, so nothing is claimed
/// of it.
#[verifier::external_body]
fn host_platform() -> (host: HostPlatform) {
    match whoami::platform() {
        whoami::Platform::Windows => HostPlatform::Windows,
        whoami::Platform::Linux => HostPlatform::Linux,
        whoami::Platform::Mac => HostPlatform::Mac,
        whoami::Platform::Ios => HostPlatform::Ios,
        whoami::Platform::Android => HostPlatform::Android,
        _ => HostPlatform::Other,
    }
}

/// The name that the client gives on this machine.
pub fn client_name() -> (name: String)
    ensures
        exists|hostname: Option<Seq<char>>| name@ == #[trigger] name_of(hostname),
{
    let hostname: Option<String> = hostname();
    let ghost known = opt_text(hostname);
    let name: String = client_name_from(hostname);
    assert(name@ == name_of(known));
    name
}

/// The platform that the client announces on this machine.
pub fn current_platform() -> (platform: PlatformType)
    ensures
        exists|host: HostPlatform| platform == #[trigger] platform_of(host),
{
    platform_from(host_platform())
}

/// The directory that the client gives.
pub const CLIENT_DIR: &'static str = "C:\\Windows\\System32\\mstscax.dll";

/// `identity` is what a client of this version gives, whatever the machine.
pub open spec fn identifies(identity: IdentityView, version: Seq<char>) -> bool {
    &&& identity.build == build_number(version)
    &&& identity.dir == CLIENT_DIR@
    &&& exists|hostname: Option<Seq<char>>| identity.name == #[trigger] name_of(hostname)
    &&& exists|host: HostPlatform| identity.platform == #[trigger] platform_of(host)
}

/// Who a client of this version says it is on a computer of this name, where it is known, and this
/// system.
pub fn identity_of(version: &str, hostname: Option<String>, host: HostPlatform) -> (identity:
    ClientIdentity)
    ensures
        identity@ == (IdentityView {
            build: build_number(version@),
            dir: CLIENT_DIR@,
            platform: platform_of(host),
            name: name_of(opt_text(hostname)),
        }),
        identity@.dir == "C:\\Windows\\System32\\mstscax.dll"@,
{
    ClientIdentity {
        build: client_build(version),
        dir: CLIENT_DIR.to_owned(),
        platform: platform_from(host),
        name: client_name_from(hostname),
    }
}

/// Who a client of this version says it is on this machine.
pub fn client_identity(version: &str) -> (identity: ClientIdentity)
    ensures
        identifies(identity@, version@),
{
    let hostname: Option<String> = hostname();
    let host: HostPlatform = host_platform();
    let ghost known = opt_text(hostname);
    let identity: ClientIdentity = identity_of(version, hostname, host);
    assert(identity@.name == name_of(known));
    assert(identity@.platform == platform_of(host));
    identity
}

// ---------------------------------------------------------------------------
// The outside configuration
// ---------------------------------------------------------------------------

/// `ironrdp_client::config::Config`, a fully resolved client configuration.
#[verifier::external_type_specification]
#[verifier::external_body]
pub struct ExConfig(Config);

/// What the engine makes of connection properties: the fields that are still missing, or why the
/// properties are not valid.
pub uninterp spec fn properties_checked(properties: PropertyMap) -> Result<
    Seq<MissingField>,
    Seq<char>,
>;

/// What the engine makes of connection properties and an identity: the configuration of a session
/// and its destination, or why there can be none.
pub uninterp spec fn config_built(properties: PropertyMap, identity: IdentityView) -> Result<
    (Config, Seq<char>),
    Seq<char>,
>;

/// The mathematical value of checked properties.
pub open spec fn check_view(check: Result<Vec<MissingField>, String>) -> Result<
    Seq<MissingField>,
    Seq<char>,
> {
    match check {
        Ok(fields) => Ok(fields@),
        Err(error) => Err(error@),
    }
}

/// The mathematical value of a built configuration.
pub open spec fn built_view(built: Result<(Config, String), String>) -> Result<
    (Config, Seq<char>),
    Seq<char>,
> {
    match built {
        Ok(built) => Ok((built.0, built.1@)),
        Err(error) => Err(error@),
    }
}

/// The identity supplies what properties that were checked so leave unset: what is built of them
/// fails for their color depth, or not at all.
pub open spec fn fails_for_color_depth_alone(
    check: Result<Seq<MissingField>, Seq<char>>,
    built: Result<(Config, Seq<char>), Seq<char>>,
) -> bool {
    check matches Ok(fields) && not_supplied(fields).len() == 0 ==> (built matches Err(error)
        ==> error == "invalid color depth: only 16 and 32 bit color depths are supported"@)
}

/// `ConfigBuilder::from_property_set`, then `ConfigBuilder::missing`: whether the properties are
/// valid, and which required fields they leave unset, is determined by the properties.
#[verifier::external_body]
pub(crate) fn check_properties(properties: &PropertySet) -> (check: Result<
    Vec<MissingField>,
    String,
>)
    ensures
        check_view(check) == properties_checked(property_map(*properties)),
{
    let builder = ConfigBuilder::from_property_set(properties).map_err(|e| format!("{e:#}"))?;
    Ok(builder.missing().into_iter().map(|field| match field {
        RdpMissingField::ServerAddress => MissingField::ServerAddress,
        RdpMissingField::Username => MissingField::Username,
        RdpMissingField::Password => MissingField::Password,
        RdpMissingField::GatewayUsername => MissingField::GatewayUsername,
        RdpMissingField::GatewayPassword => MissingField::GatewayPassword,
        RdpMissingField::RDCleanPathToken => MissingField::RDCleanPathToken,
        RdpMissingField::ClientBuild => MissingField::ClientBuild,
        RdpMissingField::ClientDir => MissingField::ClientDir,
        RdpMissingField::Platform => MissingField::Platform,
        RdpMissingField::ClientName => MissingField::ClientName,
    }).collect())
}

/// `ConfigBuilder::from_property_set`, the four setters of the client's identity, then
/// `ConfigBuilder::build`: whether there is a configuration, what it holds and what it connects to
/// is determined by the properties and the identity. The setters supply the four fields of the
/// identity, so that where the properties are valid and leave no other field unset, `build` finds
/// none missing. All that it refuses then is a color depth other than 16 and 32.
#[verifier::external_body]
pub(crate) fn build_config(properties: &PropertySet, identity: &ClientIdentity) -> (built: Result<
    (Config, String),
    String,
>)
    ensures
        built_view(built) == config_built(property_map(*properties), identity@),
        fails_for_color_depth_alone(
            properties_checked(property_map(*properties)),
            built_view(built),
        ),
{
    let platform = match identity.platform {
        PlatformType::Windows => MajorPlatformType::WINDOWS,
        PlatformType::Unix => MajorPlatformType::UNIX,
        PlatformType::Macintosh => MajorPlatformType::MACINTOSH,
        PlatformType::Ios => MajorPlatformType::IOS,
        PlatformType::Android => MajorPlatformType::ANDROID,
        PlatformType::Unspecified => MajorPlatformType::UNSPECIFIED,
    };
    let builder = ConfigBuilder::from_property_set(properties).map_err(|e| format!("{e:#}"))?;
    let builder = builder.with_client_build(identity.build).with_client_dir(identity.dir.clone());
    let builder = builder.with_platform(platform).with_client_name(identity.name.clone());
    let config = builder.build().map_err(|e| format!("{e:#}"))?;
    let destination = config.destination().to_string();
    Ok((config, destination))
}

} // verus!
