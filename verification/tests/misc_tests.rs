use gobgp_sync::install::{
    current_uid, render, render_plist, require_root, require_user, service_paths, xml_escape, InstallError, ServicePaths,
};
use gobgp_sync::logger::Logger;
use gobgp_sync::process::{
    config_type_for_extension, config_type_from_path, gobgpd_args, gobgpd_next_to_dir, resolve_gobgpd_next_to,
    ProcessError,
};

fn strings(v: &[&str]) -> Vec<String> {
    v.iter().map(|s| s.to_string()).collect()
}

#[test]
fn gobgpd_is_looked_up_next_to_the_executable() {
    assert_eq!(resolve_gobgpd_next_to("/opt/gobgp/bin/gobgp-sync"), Ok("/opt/gobgp/bin/gobgpd".to_string()));
    assert_eq!(resolve_gobgpd_next_to("gobgp-sync"), Ok("gobgpd".to_string()));
    assert_eq!(resolve_gobgpd_next_to("/"), Err(ProcessError::NoParent));
    assert_eq!(gobgpd_next_to_dir("/usr/local/bin/"), "/usr/local/bin/gobgpd");
}

#[test]
fn config_type_follows_extension() {
    assert_eq!(config_type_from_path("config/gobgpd.yaml"), Some("yaml"));
    assert_eq!(config_type_from_path("config/gobgpd.YML"), Some("yaml"));
    assert_eq!(config_type_from_path("a.json"), Some("json"));
    assert_eq!(config_type_from_path("a.hcl"), Some("hcl"));
    assert_eq!(config_type_from_path("config/gobgpd.conf"), None);
    assert_eq!(config_type_from_path("config/gobgpd.toml"), None);
    assert_eq!(config_type_from_path("config/gobgpd"), None);
    assert_eq!(config_type_for_extension(Some("Json")), Some("json"));
    assert_eq!(config_type_for_extension(None), None);
}

#[test]
fn gobgpd_arguments() {
    assert_eq!(
        gobgpd_args("config/gobgpd.yml", "127.0.0.1", 50051),
        strings(&["-f", "config/gobgpd.yml", "-t", "yaml", "--api-hosts=127.0.0.1:50051"])
    );
    assert_eq!(
        gobgpd_args("config/gobgpd.conf", "0.0.0.0", 0),
        strings(&["-f", "config/gobgpd.conf", "--api-hosts=0.0.0.0:0"])
    );
}

#[test]
fn service_paths_use_the_package_root_above_bin() {
    let p = service_paths("/opt/gobgp-sync/bin/gobgp-sync").unwrap();
    assert_eq!((p.exe.as_str(), p.workdir.as_str()), ("/opt/gobgp-sync/bin/gobgp-sync", "/opt/gobgp-sync"));
    let p = service_paths("/srv/tools/gobgp-sync").unwrap();
    assert_eq!(p.workdir, "/srv/tools");
    assert!(matches!(service_paths("/"), Err(InstallError::NoExeDir)));
}

#[test]
fn templates_are_filled_in() {
    let paths = ServicePaths { exe: "/opt/a&b/bin/x".to_string(), workdir: "/opt/a&b".to_string() };
    assert_eq!(
        render(&paths, "ExecStart=__EXE__\nWorkingDirectory=__PREFIX__\nAgain=__EXE__"),
        "ExecStart=/opt/a&b/bin/x\nWorkingDirectory=/opt/a&b\nAgain=/opt/a&b/bin/x"
    );
    assert_eq!(
        render_plist(&paths, "<string>__EXE__</string><string>__PREFIX__</string>"),
        "<string>/opt/a&amp;b/bin/x</string><string>/opt/a&amp;b</string>"
    );
    assert_eq!(render(&paths, "no placeholders"), "no placeholders");
}

#[test]
fn xml_special_characters_are_escaped() {
    assert_eq!(xml_escape("a<b>&\"c\""), "a&lt;b&gt;&amp;&quot;c&quot;");
    assert_eq!(xml_escape("&amp;"), "&amp;amp;");
    assert_eq!(xml_escape("plain"), "plain");
}

#[test]
fn uid_is_read_and_root_required() {
    assert_eq!(current_uid(" 501\n"), Ok(501));
    assert_eq!(current_uid("0"), Ok(0));
    assert_eq!(current_uid("root"), Err(InstallError::BadUid));
    assert_eq!(current_uid(""), Err(InstallError::BadUid));
    assert_eq!(current_uid("4294967296"), Err(InstallError::BadUid));
    assert_eq!(require_root(0), Ok(()));
    assert_eq!(require_root(501), Err(InstallError::NotRoot));
    assert!(InstallError::NotRoot.message().contains("root"));
    assert_eq!(require_user(501), Ok(()));
    assert_eq!(require_user(0), Err(InstallError::RootUserAgent));
    assert!(InstallError::RootUserAgent.message().contains("without sudo"));
}

#[test]
fn log_lines_carry_stamp_and_level() {
    assert_eq!(Logger::format_line("2024-05-01 02:00:00", "INFO", "sync done"), "2024-05-01 02:00:00 [INFO] sync done");
    assert_eq!(Logger::format_line("", "", ""), " [] ");
}
