use vstd::prelude::*;

use crate::text::{
    contains_seq, contains_text, cut_at, pieces, same_text, split_on, split_once, starts_with_text, trim, trimmed,
    views,
};

verus! {

/// A package as the local package database describes it.
#[derive(Debug, Clone, PartialEq, Eq)]
pub struct InstalledPackage {
    pub name: String,
    pub installed: String,
    pub architecture: String,
    pub url: String,
    pub packager: String,
    /// 1 when the package was installed as a dependency, else 0.
    pub as_dependency: i8,
}

pub struct InstalledView {
    pub name: Seq<char>,
    pub installed: Seq<char>,
    pub architecture: Seq<char>,
    pub url: Seq<char>,
    pub packager: Seq<char>,
    pub as_dependency: i8,
}

impl View for InstalledPackage {
    type V = InstalledView;

    open spec fn view(&self) -> InstalledView {
        InstalledView {
            name: self.name@,
            installed: self.installed@,
            architecture: self.architecture@,
            url: self.url@,
            packager: self.packager@,
            as_dependency: self.as_dependency,
        }
    }
}

/// The `key: value` entries of one package's description.
pub type Entries = Seq<(Seq<char>, Seq<char>)>;

/// A description line cut at its first colon, both sides trimmed.
pub open spec fn line_entry(line: Seq<char>) -> Option<(Seq<char>, Seq<char>)> {
    match cut_at(line, ':') {
        Some((k, v)) => Some((trimmed(k), trimmed(v))),
        None => None,
    }
}

/// The value of the last entry under `key`.
pub open spec fn last_value(entries: Entries, key: Seq<char>) -> Option<Seq<char>>
    decreases entries.len(),
{
    if entries.len() == 0 {
        None
    } else if entries.last().0 == key {
        Some(entries.last().1)
    } else {
        last_value(entries.drop_last(), key)
    }
}

pub open spec fn value_or_empty(entries: Entries, key: Seq<char>) -> Seq<char> {
    match last_value(entries, key) {
        Some(v) => v,
        None => Seq::empty(),
    }
}

/// The package a description stands for; one without a name stands for none,
/// and a missing field reads as empty.
pub open spec fn described_package(entries: Entries) -> Option<InstalledView> {
    match last_value(entries, "Name"@) {
        None => None,
        Some(name) => Some(
            InstalledView {
                name,
                installed: value_or_empty(entries, "Version"@),
                architecture: value_or_empty(entries, "Architecture"@),
                url: value_or_empty(entries, "URL"@),
                packager: value_or_empty(entries, "Packager"@),
                as_dependency: if (match last_value(entries, "Install Reason"@) {
                    Some(r) => contains_seq(r, "as a dependency"@),
                    None => false,
                }) {
                    1
                } else {
                    0
                },
            },
        ),
    }
}

pub open spec fn close_block(done: Seq<InstalledView>, block: Entries) -> Seq<InstalledView> {
    match described_package(block) {
        Some(p) => done.push(p),
        None => done,
    }
}

/// The packages described by the first `n` lines, and the entries of the
/// description still open; an empty line ends a description.
pub open spec fn read_lines(lines: Seq<Seq<char>>, n: nat) -> (Seq<InstalledView>, Entries)
    decreases n,
{
    if n == 0 {
        (Seq::empty(), Seq::empty())
    } else {
        let (done, block) = read_lines(lines, (n - 1) as nat);
        let line = lines[n - 1];
        if line.len() == 0 {
            (close_block(done, block), Seq::empty())
        } else {
            match line_entry(line) {
                Some(e) => (done, block.push(e)),
                None => (done, block),
            }
        }
    }
}

/// The packages described in the output of a package query, in order.
pub open spec fn installed_packages(text: Seq<char>) -> Seq<InstalledView> {
    let lines = pieces(text, '\n');
    let (done, block) = read_lines(lines, lines.len());
    close_block(done, block)
}

fn find_last(block: &Vec<(String, String)>, key: &str) -> (r: Option<String>)
    ensures
        match r {
            Some(v) => last_value(views_of_entries(block@), key@) == Some(v@),
            None => last_value(views_of_entries(block@), key@) is None,
        },
{
    let ghost es = views_of_entries(block@);
    let mut i: usize = block.len();
    assert(es.take(i as int) =~= es);
    while i > 0
        invariant
            i <= block@.len(),
            es == views_of_entries(block@),
            last_value(es, key@) == last_value(es.take(i as int), key@),
        decreases i,
    {
        assert(es.take(i as int).drop_last() =~= es.take(i - 1));
        if same_text(block[i - 1].0.as_str(), key) {
            return Some(block[i - 1].1.clone());
        }
        i = i - 1;
    }
    None
}

pub open spec fn views_of_entries(v: Seq<(String, String)>) -> Entries {
    v.map_values(|e: (String, String)| (e.0@, e.1@))
}

fn value_of(block: &Vec<(String, String)>, key: &str) -> (r: String)
    ensures
        r@ == value_or_empty(views_of_entries(block@), key@),
{
    match find_last(block, key) {
        Some(v) => v,
        None => String::new(),
    }
}

fn describe(block: &Vec<(String, String)>) -> (r: Option<InstalledPackage>)
    ensures
        match r {
            Some(p) => described_package(views_of_entries(block@)) == Some(p@),
            None => described_package(views_of_entries(block@)) is None,
        },
{
    match find_last(block, "Name") {
        None => None,
        Some(name) => {
            let as_dependency: i8 = match find_last(block, "Install Reason") {
                Some(r) => if contains_text(r.as_str(), "as a dependency") {
                    1
                } else {
                    0
                },
                None => 0,
            };
            Some(
                InstalledPackage {
                    name,
                    installed: value_of(block, "Version"),
                    architecture: value_of(block, "Architecture"),
                    url: value_of(block, "URL"),
                    packager: value_of(block, "Packager"),
                    as_dependency,
                },
            )
        },
    }
}

/// Reads the output of `pacman -Qi`: one description per package, in
/// `key : value` lines, descriptions parted by an empty line.
pub fn parse_installed(text: &str) -> (r: Vec<InstalledPackage>)
    ensures
        r@.map_values(|p: InstalledPackage| p@) == installed_packages(text@),
{
    let lines = split_on(text, '\n');
    let ghost ls = views(lines@);
    let mut done: Vec<InstalledPackage> = Vec::new();
    let mut block: Vec<(String, String)> = Vec::new();
    let mut i: usize = 0;
    assert(done@.map_values(|p: InstalledPackage| p@) =~= Seq::<InstalledView>::empty());
    assert(views_of_entries(block@) =~= Seq::<(Seq<char>, Seq<char>)>::empty());
    while i < lines.len()
        invariant
            i <= lines@.len(),
            ls == views(lines@),
            ls == pieces(text@, '\n'),
            read_lines(ls, i as nat) == (done@.map_values(|p: InstalledPackage| p@), views_of_entries(block@)),
        decreases lines@.len() - i,
    {
        let line = lines[i].as_str();
        assert(ls[i as int] == line@);
        if line.unicode_len() == 0 {
            close(&mut done, &block);
            block = Vec::new();
            assert(views_of_entries(block@) =~= Seq::<(Seq<char>, Seq<char>)>::empty());
        } else {
            match split_once(line, ':') {
                Some((k, v)) => {
                    let ghost before = views_of_entries(block@);
                    let entry = (trim(k.as_str()), trim(v.as_str()));
                    let ghost e = (entry.0@, entry.1@);
                    block.push(entry);
                    assert(views_of_entries(block@) =~= before.push(e));
                },
                None => {},
            }
        }
        i = i + 1;
    }
    close(&mut done, &block);
    done
}

fn close(done: &mut Vec<InstalledPackage>, block: &Vec<(String, String)>)
    ensures
        final(done)@.map_values(|p: InstalledPackage| p@) == close_block(
            old(done)@.map_values(|p: InstalledPackage| p@),
            views_of_entries(block@),
        ),
{
    let ghost before = done@.map_values(|p: InstalledPackage| p@);
    match describe(block) {
        Some(p) => {
            let ghost pv = p@;
            done.push(p);
            assert(done@.map_values(|p: InstalledPackage| p@) =~= before.push(pv));
        },
        None => {},
    }
}

/// A package that a sync repository offers, and the version of it that is
/// installed, if any.
#[derive(Debug, Clone, PartialEq, Eq)]
pub struct Package {
    pub repo: String,
    pub name: String,
    pub version: String,
    pub installed: Option<String>,
}

pub struct PackageView {
    pub repo: Seq<char>,
    pub name: Seq<char>,
    pub version: Seq<char>,
    pub installed: Option<Seq<char>>,
}

impl View for Package {
    type V = PackageView;

    open spec fn view(&self) -> PackageView {
        PackageView {
            repo: self.repo@,
            name: self.name@,
            version: self.version@,
            installed: match &self.installed {
                Some(v) => Some(v@),
                None => None,
            },
        }
    }
}

/// What the marker after a version says of the installed version:
/// `[installed]` is the same version, `[installed: v]` is version `v`.
pub open spec fn installed_marker(rest: Seq<char>, version: Seq<char>) -> Option<Seq<char>> {
    if rest == "[installed]"@ {
        Some(version)
    } else if rest.len() >= 13 && rest.subrange(0, 12) == "[installed: "@ && rest.last() == ']' {
        Some(rest.subrange(12, rest.len() - 1))
    } else {
        None
    }
}

/// A line `repo name version [marker]` of a repository listing; a line
/// with fewer than three words stands for no package.
pub open spec fn sync_line_package(line: Seq<char>) -> Option<PackageView> {
    match cut_at(line, ' ') {
        None => None,
        Some((repo, r1)) => match cut_at(r1, ' ') {
            None => None,
            Some((name, r2)) => match cut_at(r2, ' ') {
                None => Some(PackageView { repo, name, version: trimmed(r2), installed: None }),
                Some((v, rest)) => Some(
                    PackageView { repo, name, version: trimmed(v), installed: installed_marker(rest, trimmed(v)) },
                ),
            },
        },
    }
}

pub open spec fn sync_prefix(lines: Seq<Seq<char>>, n: nat) -> Seq<PackageView>
    decreases n,
{
    if n == 0 {
        Seq::empty()
    } else {
        let done = sync_prefix(lines, (n - 1) as nat);
        match sync_line_package(lines[n - 1]) {
            Some(p) => done.push(p),
            None => done,
        }
    }
}

/// The packages of a repository listing, one per line, in order.
pub open spec fn sync_packages(text: Seq<char>) -> Seq<PackageView> {
    sync_prefix(pieces(text, '\n'), pieces(text, '\n').len())
}

fn marker(rest: &str, version: &String) -> (r: Option<String>)
    ensures
        match r {
            Some(v) => installed_marker(rest@, version@) == Some(v@),
            None => installed_marker(rest@, version@) is None,
        },
{
    if same_text(rest, "[installed]") {
        return Some(version.clone());
    }
    let n = rest.unicode_len();
    if n >= 13 && starts_with_text(rest, "[installed: ") && rest.get_char(n - 1) == ']' {
        proof {
            reveal_strlit("[installed: ");
        }
        Some(String::from_str(rest.substring_char(12, n - 1)))
    } else {
        proof {
            reveal_strlit("[installed: ");
        }
        None
    }
}

/// Reads one line of `pacman -Sl`.
pub fn parse_sync_line(line: &str) -> (r: Option<Package>)
    ensures
        match r {
            Some(p) => sync_line_package(line@) == Some(p@),
            None => sync_line_package(line@) is None,
        },
{
    let (repo, r1) = match split_once(line, ' ') {
        Some(parts) => parts,
        None => return None,
    };
    let (name, r2) = match split_once(r1.as_str(), ' ') {
        Some(parts) => parts,
        None => return None,
    };
    match split_once(r2.as_str(), ' ') {
        None => Some(Package { repo, name, version: trim(r2.as_str()), installed: None }),
        Some((v, rest)) => {
            let version = trim(v.as_str());
            let installed = marker(rest.as_str(), &version);
            Some(Package { repo, name, version, installed })
        },
    }
}

/// Reads the output of `pacman -Sl`: the packages of the lines that
/// describe one, in order.
pub fn parse_sync_list(text: &str) -> (r: Vec<Package>)
    ensures
        r@.map_values(|p: Package| p@) == sync_packages(text@),
{
    let lines = split_on(text, '\n');
    let ghost ls = views(lines@);
    let mut out: Vec<Package> = Vec::new();
    let mut i: usize = 0;
    assert(out@.map_values(|p: Package| p@) =~= Seq::<PackageView>::empty());
    while i < lines.len()
        invariant
            i <= lines@.len(),
            ls == views(lines@),
            ls == pieces(text@, '\n'),
            sync_prefix(ls, i as nat) == out@.map_values(|p: Package| p@),
        decreases lines@.len() - i,
    {
        assert(ls[i as int] == lines@[i as int]@);
        match parse_sync_line(lines[i].as_str()) {
            Some(p) => {
                let ghost before = out@.map_values(|p: Package| p@);
                let ghost pv = p@;
                out.push(p);
                assert(out@.map_values(|p: Package| p@) =~= before.push(pv));
            },
            None => {},
        }
        i = i + 1;
    }
    out
}

} // verus!
