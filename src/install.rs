use vstd::prelude::*;

use crate::text::views;

verus! {

/// A package to install from a given repository.
#[derive(Debug, Clone)]
pub struct InstallablePackage {
    pub repo: String,
    pub name: String,
    pub as_dependency: bool,
}

/// `repo/name`, as the package manager names a package of a repository.
pub open spec fn qualified(p: InstallablePackage) -> Seq<char> {
    p.repo@ + "/"@ + p.name@
}

/// The qualified names of the packages whose `as_dependency` is `deps`, in order.
pub open spec fn qualified_names(pkgs: Seq<InstallablePackage>, deps: bool) -> Seq<Seq<char>>
    decreases pkgs.len(),
{
    if pkgs.len() == 0 {
        Seq::empty()
    } else {
        let rest = qualified_names(pkgs.drop_last(), deps);
        if pkgs.last().as_dependency == deps {
            rest.push(qualified(pkgs.last()))
        } else {
            rest
        }
    }
}

pub open spec fn install_prefix() -> Seq<Seq<char>> {
    seq!["-S"@, "--noconfirm"@]
}

fn qualified_name(p: &InstallablePackage) -> (r: String)
    ensures
        r@ == qualified(*p),
{
    let mut r = String::new();
    r.append(p.repo.as_str());
    r.append("/");
    r.append(p.name.as_str());
    r
}

fn install_args() -> (r: Vec<String>)
    ensures
        views(r@) == install_prefix(),
{
    let mut r: Vec<String> = Vec::new();
    r.push(String::from_str("-S"));
    r.push(String::from_str("--noconfirm"));
    assert(views(r@) =~= install_prefix());
    r
}

/// The package manager's arguments that install one package, marked as a
/// dependency when it is one.
pub fn install_pkg(pkg: &InstallablePackage) -> (r: Vec<String>)
    ensures
        views(r@) == install_prefix().push(qualified(*pkg)) + (if pkg.as_dependency {
            seq!["--asdeps"@]
        } else {
            Seq::empty()
        }),
{
    let mut cmd = install_args();
    cmd.push(qualified_name(pkg));
    if pkg.as_dependency {
        cmd.push(String::from_str("--asdeps"));
    }
    assert(views(cmd@) =~= install_prefix().push(qualified(*pkg)) + (if pkg.as_dependency {
        seq!["--asdeps"@]
    } else {
        Seq::empty()
    }));
    cmd
}

fn collect_names(pkgs: &Vec<InstallablePackage>, deps: bool, out: &mut Vec<String>)
    ensures
        views(final(out)@) == views(old(out)@) + qualified_names(pkgs@, deps),
{
    let ghost start = views(out@);
    let mut i: usize = 0;
    while i < pkgs.len()
        invariant
            i <= pkgs@.len(),
            views(out@) == start + qualified_names(pkgs@.take(i as int), deps),
        decreases pkgs@.len() - i,
    {
        assert(pkgs@.take(i + 1).drop_last() =~= pkgs@.take(i as int));
        if pkgs[i].as_dependency == deps {
            let ghost before = views(out@);
            let q = qualified_name(&pkgs[i]);
            out.push(q);
            assert(views(out@) =~= before.push(qualified(pkgs@[i as int])));
        }
        i = i + 1;
    }
    assert(pkgs@.take(pkgs@.len() as int) =~= pkgs@);
}

/// The two package manager calls that install a list of packages: the
/// first installs the explicit ones, the second the dependencies, marked
/// as such.
pub fn install_pkgs(pkgs: &Vec<InstallablePackage>) -> (r: (Vec<String>, Vec<String>))
    ensures
        views(r.0@) == install_prefix() + qualified_names(pkgs@, false),
        views(r.1@) == install_prefix() + qualified_names(pkgs@, true) + seq!["--asdeps"@],
{
    let mut explicit = install_args();
    collect_names(pkgs, false, &mut explicit);
    let mut deps = install_args();
    collect_names(pkgs, true, &mut deps);
    let ghost before = views(deps@);
    deps.push(String::from_str("--asdeps"));
    assert(views(deps@) =~= before + seq!["--asdeps"@]);
    (explicit, deps)
}

} // verus!
