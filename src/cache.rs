//! The local store of downloaded crate archives, and the build-tool
//! configuration that points a build at the work in progress.
use vstd::prelude::*;
use vstd::string::*;
use crate::protocol::RevDep;
use crate::registry::{api_root, crate_url};

verus! {

pub open spec fn cache_root() -> Seq<char> {
    "./.crusader/crate-cache"@
}

/// The directory that holds the archives of package `name`.
pub open spec fn crate_dir_spec(name: Seq<char>) -> Seq<char> {
    cache_root() + "/"@ + name
}

/// The archive of one (name, version): `<root>/<name>/<name>-<version>.crate`.
pub open spec fn crate_file_spec(name: Seq<char>, num: Seq<char>) -> Seq<char> {
    crate_dir_spec(name) + "/"@ + name + "-"@ + num + ".crate"@
}

pub fn crate_dir(name: &str) -> (r: String)
    ensures
        r@ == crate_dir_spec(name@),
{
    let mut p = String::from_str("./.crusader/crate-cache");
    p.append("/");
    p.append(name);
    p
}

pub fn crate_file(rev_dep: &RevDep) -> (r: String)
    ensures
        r@ == crate_file_spec(rev_dep.name@, rev_dep.num@),
{
    let mut p = crate_dir(rev_dep.name.as_str());
    p.append("/");
    p.append(rev_dep.name.as_str());
    p.append("-");
    p.append(rev_dep.num.as_str());
    p.append(".crate");
    p
}

/// The download address of one (name, version).
pub open spec fn download_url_spec(name: Seq<char>, num: Seq<char>) -> Seq<char> {
    api_root() + name + "/"@ + num + "/download"@
}

pub fn download_url(rev_dep: &RevDep) -> (r: String)
    ensures
        r@ == download_url_spec(rev_dep.name@, rev_dep.num@),
{
    let mut call = rev_dep.num.clone();
    call.append("/download");
    let r = crate_url(rev_dep.name.as_str(), Some(call.as_str()));
    assert(r@ =~= download_url_spec(rev_dep.name@, rev_dep.num@));
    r
}

/// Where to get an archive from: `None` when the cache holds it already,
/// else the address to download it from.
pub fn plan_fetch(rev_dep: &RevDep, cached: bool) -> (r: Option<String>)
    ensures
        cached ==> r is None,
        !cached ==> (r matches Some(u) && u@ == download_url_spec(rev_dep.name@, rev_dep.num@)),
{
    if cached {
        None
    } else {
        Some(download_url(rev_dep))
    }
}

/// The override directive that makes the build tool take the library from
/// directory `dir`, which must be absolute.
pub open spec fn override_directive_spec(dir: Seq<char>) -> Seq<char> {
    "paths = [\""@ + dir + "\"]"@
}

pub fn override_directive(dir: &str) -> (r: String)
    ensures
        r@ == override_directive_spec(dir@),
{
    let mut s = String::from_str("paths = [\"");
    s.append(dir);
    s.append("\"]");
    s
}

} // verus!
