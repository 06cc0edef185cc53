//! Service units for the install subcommand: paths, templates, and the
//! checks on the user.
use vstd::prelude::*;

use crate::process::{path_file_name, path_file_name_of, path_parent, path_parent_of};
use crate::text::{chars_eq, chars_of, parse_uint, parse_uint_chars, replace_all, replace_chars, string_of, trim, trim_chars};

verus! {

/// The launchd label.
pub const LABEL: &'static str = "com.users.gobgp-sync";

/// The label of earlier installs, removed on install.
pub const LEGACY_LABEL: &'static str = "com.gobgp-sync";

/// The systemd unit name.
pub const SYSTEMD_UNIT: &'static str = "gobgp-sync.service";

/// Why the install cannot go on.
#[derive(Clone, Copy, PartialEq, Eq, Structural, Debug)]
pub enum InstallError {
    /// The output of `id -u` is no user id.
    BadUid,
    /// The Linux install needs root.
    NotRoot,
    /// The macOS install writes a user agent and must not run as root.
    RootUserAgent,
    /// The executable's path has no parent directory.
    NoExeDir,
    /// The `bin` directory has no parent.
    NoWorkDir,
}

/// The text that explains an error.
pub open spec fn install_error_text(e: InstallError) -> Seq<char> {
    match e {
        InstallError::BadUid => "failed to parse uid"@,
        InstallError::NotRoot => "install on Linux requires root (sudo ./bin/gobgp-sync install)"@,
        InstallError::RootUserAgent => "install on macOS writes a user LaunchAgent; run without sudo"@,
        InstallError::NoExeDir => "cannot resolve executable directory"@,
        InstallError::NoWorkDir => "cannot resolve working directory"@,
    }
}

impl InstallError {
    /// See `install_error_text`.
    pub fn message(&self) -> (r: &'static str)
        ensures
            r@ == install_error_text(*self),
    {
        match self {
            InstallError::BadUid => "failed to parse uid",
            InstallError::NotRoot => "install on Linux requires root (sudo ./bin/gobgp-sync install)",
            InstallError::RootUserAgent => "install on macOS writes a user LaunchAgent; run without sudo",
            InstallError::NoExeDir => "cannot resolve executable directory",
            InstallError::NoWorkDir => "cannot resolve working directory",
        }
    }
}

/// The executable and the working directory a unit names.
#[derive(Clone, Debug)]
pub struct ServicePaths {
    pub exe: String,
    pub workdir: String,
}

/// The working directory for executable `exe`: the package root above a
/// `bin` directory, else the executable's directory.
pub open spec fn workdir_of(exe: Seq<char>) -> Result<Seq<char>, InstallError> {
    match path_parent_of(exe) {
        None => Err(InstallError::NoExeDir),
        Some(bin) => if path_file_name_of(bin) == Some("bin"@) {
            match path_parent_of(bin) {
                Some(root) => Ok(root),
                None => Err(InstallError::NoWorkDir),
            }
        } else {
            Ok(bin)
        },
    }
}

/// `&`, `<`, `>`, `"` as XML entities (`&` first).
pub open spec fn xml_escape_of(v: Seq<char>) -> Seq<char> {
    replace_all(
        replace_all(replace_all(replace_all(v, "&"@, "&amp;"@), "<"@, "&lt;"@), ">"@, "&gt;"@),
        "\""@,
        "&quot;"@,
    )
}

/// The template with `__EXE__` and `__PREFIX__` filled in.
pub open spec fn render_of(template: Seq<char>, exe: Seq<char>, workdir: Seq<char>) -> Seq<char> {
    replace_all(replace_all(template, "__EXE__"@, exe), "__PREFIX__"@, workdir)
}

fn replace_text(v: &[char], pat: &str, rep: &[char]) -> (r: Vec<char>)
    requires
        pat@.len() > 0,
    ensures
        r@ == replace_all(v@, pat@, rep@),
{
    let p = chars_of(pat);
    replace_chars(v, p.as_slice(), rep)
}

/// The paths for the unit of executable `exe`; see `workdir_of`.
pub fn service_paths(exe: &str) -> (r: Result<ServicePaths, InstallError>)
    ensures
        match r {
            Ok(p) => p.exe@ == exe@ && workdir_of(exe@) == Ok::<Seq<char>, InstallError>(p.workdir@),
            Err(e) => workdir_of(exe@) == Err::<Seq<char>, InstallError>(e),
        },
{
    let bin = match path_parent(exe) {
        Some(b) => b,
        None => {
            return Err(InstallError::NoExeDir);
        },
    };
    let is_bin = match path_file_name(bin.as_str()) {
        Some(n) => chars_eq(chars_of(n.as_str()).as_slice(), chars_of("bin").as_slice()),
        None => false,
    };
    let workdir = if is_bin {
        match path_parent(bin.as_str()) {
            Some(root) => root,
            None => {
                return Err(InstallError::NoWorkDir);
            },
        }
    } else {
        bin
    };
    Ok(ServicePaths { exe: exe.to_owned(), workdir })
}

/// `&`, `<`, `>` and `"` escaped for XML.
pub fn xml_escape(value: &str) -> (r: String)
    ensures
        r@ == xml_escape_of(value@),
{
    proof {
        reveal_strlit("&");
        reveal_strlit("<");
        reveal_strlit(">");
        reveal_strlit("\"");
    }
    let v = chars_of(value);
    let a = replace_text(v.as_slice(), "&", chars_of("&amp;").as_slice());
    let b = replace_text(a.as_slice(), "<", chars_of("&lt;").as_slice());
    let c = replace_text(b.as_slice(), ">", chars_of("&gt;").as_slice());
    let d = replace_text(c.as_slice(), "\"", chars_of("&quot;").as_slice());
    string_of(d.as_slice())
}

/// The systemd unit: the template with the paths filled in.
pub fn render(paths: &ServicePaths, template: &str) -> (r: String)
    ensures
        r@ == render_of(template@, paths.exe@, paths.workdir@),
{
    proof {
        reveal_strlit("__EXE__");
        reveal_strlit("__PREFIX__");
    }
    let t = chars_of(template);
    let a = replace_text(t.as_slice(), "__EXE__", chars_of(paths.exe.as_str()).as_slice());
    let b = replace_text(a.as_slice(), "__PREFIX__", chars_of(paths.workdir.as_str()).as_slice());
    string_of(b.as_slice())
}

/// The launchd plist: the template with the paths, XML-escaped, filled
/// in.
pub fn render_plist(paths: &ServicePaths, template: &str) -> (r: String)
    ensures
        r@ == render_of(template@, xml_escape_of(paths.exe@), xml_escape_of(paths.workdir@)),
{
    proof {
        reveal_strlit("__EXE__");
        reveal_strlit("__PREFIX__");
    }
    let exe = xml_escape(paths.exe.as_str());
    let dir = xml_escape(paths.workdir.as_str());
    let t = chars_of(template);
    let a = replace_text(t.as_slice(), "__EXE__", chars_of(exe.as_str()).as_slice());
    let b = replace_text(a.as_slice(), "__PREFIX__", chars_of(dir.as_str()).as_slice());
    string_of(b.as_slice())
}

/// The user id in the output of `id -u` (trimmed).
pub fn current_uid(id_output: &str) -> (r: Result<u32, InstallError>)
    ensures
        match r {
            Ok(u) => parse_uint(trim(id_output@), 0xffff_ffff) == Some(u as nat),
            Err(e) => parse_uint(trim(id_output@), 0xffff_ffff) is None && e == InstallError::BadUid,
        },
{
    let t = trim_chars(chars_of(id_output).as_slice());
    match parse_uint_chars(t.as_slice(), 0xffff_ffff) {
        Some(u) => Ok(u as u32),
        None => Err(InstallError::BadUid),
    }
}

/// The Linux install runs as root only.
pub fn require_root(uid: u32) -> (r: Result<(), InstallError>)
    ensures
        r is Ok <==> uid == 0,
        r matches Err(e) ==> e == InstallError::NotRoot,
{
    if uid != 0 {
        return Err(InstallError::NotRoot);
    }
    Ok(())
}

/// The macOS install runs as an ordinary user only.
pub fn require_user(uid: u32) -> (r: Result<(), InstallError>)
    ensures
        r is Ok <==> uid != 0,
        r matches Err(e) ==> e == InstallError::RootUserAgent,
{
    if uid == 0 {
        return Err(InstallError::RootUserAgent);
    }
    Ok(())
}

} // verus!
