//! Where firmware artifacts lie in the firmware tree.

use crate::shared::{hyphenated, uuid_text, AppData, Failure};
use vstd::prelude::*;
use vstd::string::StringExecFns;

verus! {

/// The address of a device's firmware of a given version:
/// `./fw/{serial_number}/{version}.bin`, a directory whose entries are the
/// candidate binaries.
pub open spec fn firmware_address(serial: u128, version: Seq<char>) -> Seq<char> {
    "./fw/"@ + hyphenated(serial) + "/"@ + version + ".bin"@
}

/// The two artifacts that the legacy layout keeps per gateway.
#[derive(Debug, Clone, Copy, PartialEq, Eq, Structural)]
pub enum GatewayArtifact {
    /// The metadata text, `{gateway}.data`.
    Info,
    /// The binary image, `{gateway}.bin`.
    Binary,
}

/// The file extension of a legacy artifact.
pub open spec fn artifact_extension(a: GatewayArtifact) -> Seq<char> {
    match a {
        GatewayArtifact::Info => ".data"@,
        GatewayArtifact::Binary => ".bin"@,
    }
}

/// The legacy path `./fw/{apiary_id}/{gateway}{extension}`.
pub open spec fn gateway_artifact_path(
    apiary_id: Seq<char>,
    gateway: Seq<char>,
    a: GatewayArtifact,
) -> Seq<char> {
    "./fw/"@ + apiary_id + "/"@ + gateway + artifact_extension(a)
}

/// The firmware address for the device that holds the token; an unknown
/// token is an authorization failure.
pub fn firmware_location(data: &AppData, token: u128, version: &str) -> (r: Result<
    String,
    Failure,
>)
    ensures
        !data@.contains_key(token) ==> r == Err::<String, Failure>(Failure::Authorization),
        data@.contains_key(token) ==> (r matches Ok(p) && p@ == firmware_address(
            data@[token],
            version@,
        )),
{
    let serial = match data.get_serial_number(token) {
        Some(s) => s,
        None => return Err(Failure::Authorization),
    };
    let serial_text = uuid_text(serial);
    let mut path = "./fw/".to_string();
    path.append(serial_text.as_str());
    path.append("/");
    path.append(version);
    path.append(".bin");
    Ok(path)
}

/// The path of a gateway's artifact in the legacy layout.
pub fn gateway_firmware_path(apiary_id: &str, gateway: &str, artifact: GatewayArtifact) -> (r:
    String)
    ensures
        r@ == gateway_artifact_path(apiary_id@, gateway@, artifact),
{
    let mut path = "./fw/".to_string();
    path.append(apiary_id);
    path.append("/");
    path.append(gateway);
    match artifact {
        GatewayArtifact::Info => path.append(".data"),
        GatewayArtifact::Binary => path.append(".bin"),
    }
    path
}

} // verus!
