use pacdb::packages::{parse_installed, parse_sync_line, parse_sync_list, InstalledPackage, Package};

fn installed(name: &str, version: &str, dep: i8) -> InstalledPackage {
    InstalledPackage {
        name: name.to_string(),
        installed: version.to_string(),
        architecture: "x86_64".to_string(),
        url: format!("https://example.org/{name}"),
        packager: "Someone <someone@example.org>".to_string(),
        as_dependency: dep,
    }
}

#[test]
fn query_output_is_read_package_by_package() {
    let text = "Name            : bash\n\
Version         : 5.2.026-2\n\
Architecture    : x86_64\n\
URL             : https://example.org/bash\n\
Packager        : Someone <someone@example.org>\n\
Install Reason  : Explicitly installed\n\
\n\
Name            : zlib\n\
Version         : 1:1.3.1-1\n\
Description     : Compression library\n\
Architecture    : x86_64\n\
URL             : https://example.org/zlib\n\
Packager        : Someone <someone@example.org>\n\
Install Reason  : Installed as a dependency for another package\n\
\n";
    let pkgs = parse_installed(text);
    assert_eq!(pkgs, vec![installed("bash", "5.2.026-2", 0), installed("zlib", "1:1.3.1-1", 1)]);
}

#[test]
fn query_output_without_name_or_fields() {
    assert!(parse_installed("").is_empty());
    assert!(parse_installed("Version : 1\n\nno colon here\n").is_empty());
    let pkgs = parse_installed("Name: solo\nName : again");
    assert_eq!(pkgs.len(), 1);
    assert_eq!(pkgs[0].name, "again");
    assert_eq!(pkgs[0].installed, "");
    assert_eq!(pkgs[0].as_dependency, 0);
}

#[test]
fn sync_lines() {
    let p = |repo: &str, name: &str, version: &str, installed: Option<&str>| Package {
        repo: repo.to_string(),
        name: name.to_string(),
        version: version.to_string(),
        installed: installed.map(|s| s.to_string()),
    };
    assert_eq!(parse_sync_line("core bash 5.2.026-2 [installed]"), Some(p("core", "bash", "5.2.026-2", Some("5.2.026-2"))));
    assert_eq!(parse_sync_line("extra vim 9.1-1 [installed: 9.0-3]"), Some(p("extra", "vim", "9.1-1", Some("9.0-3"))));
    assert_eq!(parse_sync_line("extra git 2.45-1"), Some(p("extra", "git", "2.45-1", None)));
    assert_eq!(parse_sync_line("extra git 2.45-1 [other]"), Some(p("extra", "git", "2.45-1", None)));
    assert_eq!(parse_sync_line("extra git"), None);
    assert_eq!(parse_sync_line(""), None);
    let all = parse_sync_list("core a 1 [installed]\ncore b 2\n\n");
    assert_eq!(all, vec![p("core", "a", "1", Some("1")), p("core", "b", "2", None)]);
}
