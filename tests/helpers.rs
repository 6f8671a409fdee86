use pacdb::field::FieldType;
use pacdb::install::{install_pkg, install_pkgs, InstallablePackage};
use pacdb::util::{group, split};

fn pkg(repo: &str, name: &str, dep: bool) -> InstallablePackage {
    InstallablePackage { repo: repo.to_string(), name: name.to_string(), as_dependency: dep }
}

#[test]
fn sqlite_type_names() {
    assert_eq!(FieldType::Char.sqlite_type(), "CHARACTER(1)");
    assert_eq!(FieldType::String.sqlite_type(), "TEXT");
    assert_eq!(FieldType::Bool.sqlite_type(), "TINYINT");
    assert_eq!(FieldType::U8.sqlite_type(), "TINYINT");
    assert_eq!(FieldType::I16.sqlite_type(), "SMALLINT");
    assert_eq!(FieldType::U32.sqlite_type(), "INTEGER");
    assert_eq!(FieldType::I64.sqlite_type(), "BIGINT");
    assert_eq!(FieldType::F32.sqlite_type(), "FLOAT");
    assert_eq!(FieldType::F64.sqlite_type(), "DOUBLE");
    assert_eq!(FieldType::Bytes.sqlite_type(), "BLOB");
}

#[test]
fn split_keeps_order() {
    let (even, odd) = split(vec![1u32, 2, 3, 4, 5, 6], |x: &u32| *x % 2 == 0);
    assert_eq!(even, vec![2, 4, 6]);
    assert_eq!(odd, vec![1, 3, 5]);
    let (none, all) = split(Vec::<u32>::new(), |_x: &u32| true);
    assert!(none.is_empty() && all.is_empty());
}

#[test]
fn group_by_key() {
    let words = vec!["apple", "avocado", "banana", "blueberry", "cherry", "apricot"];
    let groups = group(words, |w: &&str| w[..1].to_string());
    assert_eq!(
        groups,
        vec![
            ("a".to_string(), vec!["apple", "avocado", "apricot"]),
            ("b".to_string(), vec!["banana", "blueberry"]),
            ("c".to_string(), vec!["cherry"]),
        ]
    );
    assert!(group(Vec::<u8>::new(), |_x: &u8| String::new()).is_empty());
}

#[test]
fn install_one_package() {
    assert_eq!(install_pkg(&pkg("extra", "vim", false)), vec!["-S", "--noconfirm", "extra/vim"]);
    assert_eq!(install_pkg(&pkg("core", "zlib", true)), vec!["-S", "--noconfirm", "core/zlib", "--asdeps"]);
}

#[test]
fn install_many_packages() {
    let pkgs = vec![pkg("extra", "vim", false), pkg("core", "zlib", true), pkg("extra", "git", false)];
    let (explicit, deps) = install_pkgs(&pkgs);
    assert_eq!(explicit, vec!["-S", "--noconfirm", "extra/vim", "extra/git"]);
    assert_eq!(deps, vec!["-S", "--noconfirm", "core/zlib", "--asdeps"]);
}
