//! What can go wrong while a package is assembled.

use crate::text::{append_str, chars_of, string_of};
use vstd::prelude::*;

verus! {

#[derive(Debug)]
pub enum CargoDebError {
    /// A read or a write failed; the text is the system's message.
    Io(String),
    /// A file could not be read: what was being done, the system's message,
    /// the file.
    IoFile(&'static str, String, String),
    /// A command could not be started: the system's message, the command.
    CommandFailed(String, &'static str),
    /// A command ran and failed: what it was, its argument, what it printed.
    CommandError(&'static str, String, Vec<u8>),
    Str(&'static str),
    /// A number could not be read: what it was for, the text that was given.
    NumParse(&'static str, String),
    InstallFailed,
    BuildFailed,
    /// A binary could not be stripped: the binary, the reason.
    StripFailed(String, String),
    SystemTime,
    ParseTOML(String),
    ParseJSON(String),
    PackageNotFound(String, Vec<u8>),
    PackageNotFoundInWorkspace(String, String),
    NoRootFoundInWorkspace(String),
    VariantNotFound(String),
    GlobPatternError(String),
    /// A declared asset matches no file: its source path.
    AssetFileNotFound(String),
    AssetGlobError(String),
    /// A maintainer script of the user lacks the place for generated text:
    /// the script's path.
    DebHelperReplaceFailed(String),
    /// A unit that is to be started is not among the installed files: its name.
    UnitNotFound(String),
    /// Text that has to be UTF-8 is not: what holds it.
    InvalidUtf8(String),
}

pub type CDResult<T> = Result<T, CargoDebError>;

/// The text that `String::from_utf8_lossy` makes of bytes.
pub uninterp spec fn lossy_text(bytes: Seq<u8>) -> Seq<char>;

/// `String::from_utf8_lossy` turns bytes into text; what is no UTF-8 among
/// them becomes the replacement character. The text depends on the bytes
/// alone.
#[verifier::external_body]
fn from_utf8_lossy(bytes: &Vec<u8>) -> (r: String)
    ensures
        r@ == lossy_text(bytes@),
{
    String::from_utf8_lossy(bytes).into_owned()
}

fn two(a: &str, b: &str) -> (r: String)
    ensures
        r@ == a@ + b@,
{
    let mut v = chars_of(a);
    append_str(&mut v, b);
    string_of(&v)
}

fn three(a: &str, b: &str, c: &str) -> (r: String)
    ensures
        r@ == a@ + b@ + c@,
{
    let mut v = chars_of(a);
    append_str(&mut v, b);
    append_str(&mut v, c);
    string_of(&v)
}

fn four(a: &str, b: &str, c: &str, d: &str) -> (r: String)
    ensures
        r@ == a@ + b@ + c@ + d@,
{
    let mut v = chars_of(a);
    append_str(&mut v, b);
    append_str(&mut v, c);
    append_str(&mut v, d);
    string_of(&v)
}

impl CargoDebError {
    /// What the error says to the user.
    pub open spec fn text(&self) -> Seq<char> {
        match self {
            CargoDebError::Io(err) => "I/O error: "@ + err@,
            CargoDebError::IoFile(msg, _, file) => msg@ + ": "@ + file@,
            CargoDebError::CommandFailed(_, cmd) => "Command "@ + cmd@ + " failed to launch"@,
            CargoDebError::CommandError(msg, arg, reason) => msg@ + " ("@ + arg@ + "): "@
                + lossy_text(reason@),
            CargoDebError::Str(msg) => msg@,
            CargoDebError::NumParse(msg, _) => msg@,
            CargoDebError::InstallFailed => "installation failed, because dpkg -i returned error"@,
            CargoDebError::BuildFailed => "build failed"@,
            CargoDebError::StripFailed(name, reason) => "unable to strip binary '"@ + name@
                + "': "@ + reason@,
            CargoDebError::SystemTime => "unable to get system time"@,
            CargoDebError::ParseTOML(_) => "unable to parse Cargo.toml"@,
            CargoDebError::ParseJSON(_) => "unable to parse `cargo metadata` output"@,
            CargoDebError::PackageNotFound(path, reason) => "path '"@ + path@
                + "' does not belong to a package: "@ + lossy_text(reason@),
            CargoDebError::PackageNotFoundInWorkspace(name, available) => "The workspace doesn't have a package named "@
                + name@ + ". Available packages are: "@ + available@,
            CargoDebError::NoRootFoundInWorkspace(available) => "This is a workspace with multiple packages, and there is no single package at the root. Please specify package name with -p. Available packages are: "@
                + available@,
            CargoDebError::VariantNotFound(variant) => "[package.metadata.deb.variants."@
                + variant@ + "] not found in Cargo.toml"@,
            CargoDebError::GlobPatternError(_) => "unable to parse glob pattern"@,
            CargoDebError::AssetFileNotFound(path) => "Asset file path does not match any files: "@
                + path@,
            CargoDebError::AssetGlobError(_) => "unable to iterate asset glob result"@,
            CargoDebError::DebHelperReplaceFailed(name) => "Unable to replace #DEBHELPER# token in maintainer script '"@
                + name@ + "'"@,
            CargoDebError::UnitNotFound(name) => "The package does not install the unit "@ + name@,
            CargoDebError::InvalidUtf8(what) => "Not valid UTF-8: "@ + what@,
        }
    }

    /// What the error says to the user.
    pub fn to_string(&self) -> (r: String)
        ensures
            r@ == self.text(),
    {
        match self {
            CargoDebError::Io(err) => two("I/O error: ", err.as_str()),
            CargoDebError::IoFile(msg, _, file) => three(msg, ": ", file.as_str()),
            CargoDebError::CommandFailed(_, cmd) => three("Command ", cmd, " failed to launch"),
            CargoDebError::CommandError(msg, arg, reason) => {
                let head = four(msg, " (", arg.as_str(), "): ");
                two(head.as_str(), from_utf8_lossy(reason).as_str())
            },
            CargoDebError::Str(msg) => {
                let m: &str = msg;
                m.to_owned()
            },
            CargoDebError::NumParse(msg, _) => {
                let m: &str = msg;
                m.to_owned()
            },
            CargoDebError::InstallFailed => {
                "installation failed, because dpkg -i returned error".to_owned()
            },
            CargoDebError::BuildFailed => "build failed".to_owned(),
            CargoDebError::StripFailed(name, reason) => four(
                "unable to strip binary '",
                name.as_str(),
                "': ",
                reason.as_str(),
            ),
            CargoDebError::SystemTime => "unable to get system time".to_owned(),
            CargoDebError::ParseTOML(_) => "unable to parse Cargo.toml".to_owned(),
            CargoDebError::ParseJSON(_) => "unable to parse `cargo metadata` output".to_owned(),
            CargoDebError::PackageNotFound(path, reason) => four(
                "path '",
                path.as_str(),
                "' does not belong to a package: ",
                from_utf8_lossy(reason).as_str(),
            ),
            CargoDebError::PackageNotFoundInWorkspace(name, available) => four(
                "The workspace doesn't have a package named ",
                name.as_str(),
                ". Available packages are: ",
                available.as_str(),
            ),
            CargoDebError::NoRootFoundInWorkspace(available) => two("This is a workspace with multiple packages, and there is no single package at the root. Please specify package name with -p. Available packages are: ", available.as_str()),
            CargoDebError::VariantNotFound(variant) => three(
                "[package.metadata.deb.variants.",
                variant.as_str(),
                "] not found in Cargo.toml",
            ),
            CargoDebError::GlobPatternError(_) => "unable to parse glob pattern".to_owned(),
            CargoDebError::AssetFileNotFound(path) => two("Asset file path does not match any files: ", path.as_str()),
            CargoDebError::AssetGlobError(_) => "unable to iterate asset glob result".to_owned(),
            CargoDebError::DebHelperReplaceFailed(name) => three(
                "Unable to replace #DEBHELPER# token in maintainer script '",
                name.as_str(),
                "'",
            ),
            CargoDebError::UnitNotFound(name) => two("The package does not install the unit ", name.as_str()),
            CargoDebError::InvalidUtf8(what) => two("Not valid UTF-8: ", what.as_str()),
        }
    }
}

} // verus!
