//! The managed gobgpd: where its binary is and how it is started.
use vstd::prelude::*;

use crate::config::path_join;
use crate::config::path_join_chars;
use crate::text::{chars_of, chars_eq, decimal, decimal_chars, lower_ascii_seq, string_of, string_views, to_ascii_lower, append};

verus! {

/// `Path::file_name` of a path given as text, by the Unix path rules (`/`
/// separates components) of the Linux and macOS targets.
pub uninterp spec fn path_file_name_of(p: Seq<char>) -> Option<Seq<char>>;

/// `Path::new(p).file_name()`, as text.
#[verifier::external_body]
pub(crate) fn path_file_name(p: &str) -> (r: Option<String>)
    ensures
        match r {
            Some(n) => path_file_name_of(p@) == Some(n@),
            None => path_file_name_of(p@) is None,
        },
{
    std::path::Path::new(p).file_name().map(|n| n.to_string_lossy().into_owned())
}

/// `Path::parent` of a path given as text, by the Unix path rules (`/`
/// separates components) of the Linux and macOS targets.
pub uninterp spec fn path_parent_of(p: Seq<char>) -> Option<Seq<char>>;

/// `Path::extension` of a path given as text, by the Unix path rules (`/`
/// separates components) of the Linux and macOS targets.
pub uninterp spec fn path_extension_of(p: Seq<char>) -> Option<Seq<char>>;

/// `Path::new(p).parent()`, as text.
#[verifier::external_body]
pub(crate) fn path_parent(p: &str) -> (r: Option<String>)
    ensures
        match r {
            Some(d) => path_parent_of(p@) == Some(d@),
            None => path_parent_of(p@) is None,
        },
{
    std::path::Path::new(p).parent().map(|d| d.to_string_lossy().into_owned())
}

/// `Path::new(p).extension()`, as text.
#[verifier::external_body]
pub(crate) fn path_extension(p: &str) -> (r: Option<String>)
    ensures
        match r {
            Some(e) => path_extension_of(p@) == Some(e@),
            None => path_extension_of(p@) is None,
        },
{
    std::path::Path::new(p).extension().map(|e| e.to_string_lossy().into_owned())
}

/// Why a program path could not be worked out.
#[derive(Clone, Copy, PartialEq, Eq, Structural, Debug)]
pub enum ProcessError {
    /// The executable's path has no parent directory.
    NoParent,
}

/// The gobgpd binary in directory `dir`.
pub open spec fn gobgpd_in(dir: Seq<char>) -> Seq<char> {
    path_join(dir, "gobgpd"@)
}

/// `-t` for a config file extension (letter case ignored): `yaml` for
/// `yaml`/`yml`, `json`, `hcl`; none otherwise (gobgpd's default, TOML).
pub open spec fn config_type_of(ext: Option<Seq<char>>) -> Option<Seq<char>> {
    match ext {
        Some(e) => {
            let l = lower_ascii_seq(e);
            if l == "yaml"@ || l == "yml"@ {
                Some("yaml"@)
            } else if l == "json"@ {
                Some("json"@)
            } else if l == "hcl"@ {
                Some("hcl"@)
            } else {
                None
            }
        },
        None => None,
    }
}

/// The arguments of gobgpd: `-f CONFIG`, `-t TYPE` when the extension names
/// one, `--api-hosts=HOST:PORT`.
pub open spec fn gobgpd_args_of(config: Seq<char>, t: Option<Seq<char>>, host: Seq<char>, port: u16) -> Seq<Seq<char>> {
    let head = seq!["-f"@, config];
    let typed = match t {
        Some(x) => head + seq!["-t"@, x],
        None => head,
    };
    typed.push("--api-hosts="@ + host + seq![':'] + decimal(port as nat))
}

/// The gobgpd binary next to the executable (the search path is not used):
/// the candidate path; whether it is a file is for the caller to check.
pub fn resolve_gobgpd_next_to(exe: &str) -> (r: Result<String, ProcessError>)
    ensures
        match r {
            Ok(p) => path_parent_of(exe@) matches Some(d) && p@ == gobgpd_in(d),
            Err(e) => path_parent_of(exe@) is None && e == ProcessError::NoParent,
        },
{
    match path_parent(exe) {
        Some(dir) => Ok(gobgpd_next_to_dir(dir.as_str())),
        None => Err(ProcessError::NoParent),
    }
}

/// The gobgpd binary in directory `dir`.
pub fn gobgpd_next_to_dir(dir: &str) -> (r: String)
    ensures
        r@ == gobgpd_in(dir@),
{
    let d = chars_of(dir);
    let name = chars_of("gobgpd");
    string_of(path_join_chars(d.as_slice(), name.as_slice()).as_slice())
}

/// `-t` for an extension; see `config_type_of`.
pub fn config_type_for_extension(ext: Option<&str>) -> (r: Option<&'static str>)
    ensures
        match r {
            Some(t) => config_type_of(match ext {
                Some(e) => Some(e@),
                None => None,
            }) == Some(t@),
            None => config_type_of(match ext {
                Some(e) => Some(e@),
                None => None,
            }) is None,
        },
{
    match ext {
        Some(e) => {
            let l = to_ascii_lower(chars_of(e).as_slice());
            let yaml = "yaml";
            let json = "json";
            let hcl = "hcl";
            if chars_eq(l.as_slice(), chars_of(yaml).as_slice()) || chars_eq(
                l.as_slice(),
                chars_of("yml").as_slice(),
            ) {
                Some(yaml)
            } else if chars_eq(l.as_slice(), chars_of(json).as_slice()) {
                Some(json)
            } else if chars_eq(l.as_slice(), chars_of(hcl).as_slice()) {
                Some(hcl)
            } else {
                None
            }
        },
        None => None,
    }
}

/// `-t` for the config file at `path`, from its extension.
pub fn config_type_from_path(path: &str) -> (r: Option<&'static str>)
    ensures
        match r {
            Some(t) => config_type_of(path_extension_of(path@)) == Some(t@),
            None => config_type_of(path_extension_of(path@)) is None,
        },
{
    match path_extension(path) {
        Some(e) => config_type_for_extension(Some(e.as_str())),
        None => config_type_for_extension(None),
    }
}

/// The arguments gobgpd is started with; see `gobgpd_args_of`.
pub fn gobgpd_args(config_path: &str, api_host: &str, api_port: u16) -> (r: Vec<String>)
    ensures
        string_views(r@) == gobgpd_args_of(
            config_path@,
            match config_type_of(path_extension_of(config_path@)) {
                Some(t) => Some(t),
                None => None,
            },
            api_host@,
            api_port,
        ),
{
    let mut args: Vec<String> = Vec::new();
    args.push("-f".to_owned());
    args.push(config_path.to_owned());
    let ghost head = string_views(args@);
    assert(head =~= seq!["-f"@, config_path@]);
    match config_type_from_path(config_path) {
        Some(t) => {
            args.push("-t".to_owned());
            args.push(t.to_owned());
            assert(string_views(args@) =~= head + seq!["-t"@, t@]);
        },
        None => {},
    }
    let ghost typed = string_views(args@);
    let mut last = chars_of("--api-hosts=");
    append(&mut last, chars_of(api_host).as_slice());
    last.push(':');
    append(&mut last, decimal_chars(api_port as u64).as_slice());
    assert(last@ =~= "--api-hosts="@ + api_host@ + seq![':'] + decimal(api_port as nat));
    let ghost before = args@;
    args.push(string_of(last.as_slice()));
    assert(args@ == before.push(args@.last()));
    assert(string_views(args@) =~= typed.push("--api-hosts="@ + api_host@ + seq![':'] + decimal(api_port as nat)));
    args
}

} // verus!
