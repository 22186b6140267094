//! The `update` subcommand: how the tool was installed, which release archive
//! fits this machine, and what the release service reports as the latest tag.
use vstd::prelude::*;
use crate::text::{
    chars_of, contains, find, find_ch, find_char, find_seq, lines, slice_of, split_lines, string_of,
    vv,
};

verus! {

/// The version of this build.
pub const VERSION: &'static str = "0.1.0";

/// How the running binary was installed, which decides how it updates itself.
#[derive(PartialEq, Eq, Structural, Debug, Clone, Copy)]
pub enum InstallMethod {
    Npm,
    Pipx,
    Direct,
}

/// The install method that a binary at `path` points to: a path through an npm
/// tree is npm's, one through a pipx environment or `site-packages` is pipx's,
/// any other is a direct install.
pub open spec fn install_method_of(path: Seq<char>) -> InstallMethod {
    if contains(path, "node_modules"@) || contains(path, "/npm/"@) || contains(path, "/nvm/"@) {
        InstallMethod::Npm
    } else if contains(path, "pipx/venvs"@) || contains(path, "site-packages"@) {
        InstallMethod::Pipx
    } else {
        InstallMethod::Direct
    }
}

fn has(path: &[char], pat: &str) -> (b: bool)
    ensures
        b == contains(path@, pat@),
{
    let p = chars_of(pat);
    find_seq(path, p.as_slice()).is_some()
}

/// How the binary at `path` was installed.
pub fn detect_install_method(path: &str) -> (r: InstallMethod)
    ensures
        r == install_method_of(path@),
{
    let p = chars_of(path);
    if has(p.as_slice(), "node_modules") || has(p.as_slice(), "/npm/") || has(p.as_slice(), "/nvm/") {
        InstallMethod::Npm
    } else if has(p.as_slice(), "pipx/venvs") || has(p.as_slice(), "site-packages") {
        InstallMethod::Pipx
    } else {
        InstallMethod::Direct
    }
}

/// The release target for an operating system and an architecture, as
/// `std::env::consts` names them, or why there is none.
pub open spec fn platform_of(os: Seq<char>, arch: Seq<char>) -> Result<Seq<char>, Seq<char>> {
    if os != "linux"@ && os != "macos"@ {
        if os == "windows"@ {
            Err("self-update is not supported on Windows; use npm or pip to update"@)
        } else {
            Err("unsupported operating system"@)
        }
    } else if arch != "x86_64"@ && arch != "aarch64"@ {
        Err("unsupported architecture"@)
    } else {
        let o = if os == "linux"@ { "linux"@ } else { "darwin"@ };
        let a = if arch == "x86_64"@ { "amd64"@ } else { "arm64"@ };
        Ok(o + "-"@ + a)
    }
}

fn is(s: &str, t: &str) -> (b: bool)
    ensures
        b == (s@ == t@),
{
    let a = chars_of(s);
    let b = chars_of(t);
    crate::text::same(a.as_slice(), b.as_slice())
}

/// The release target of this machine, given its operating system and architecture.
pub fn detect_platform(os: &str, arch: &str) -> (r: Result<String, String>)
    ensures
        match (r, platform_of(os@, arch@)) {
            (Ok(t), Ok(u)) => t@ == u,
            (Err(e), Err(f)) => e@ == f,
            _ => false,
        },
{
    let o = if is(os, "linux") {
        "linux"
    } else if is(os, "macos") {
        "darwin"
    } else if is(os, "windows") {
        return Err(string_of(chars_of("self-update is not supported on Windows; use npm or pip to update").as_slice()));
    } else {
        return Err(string_of(chars_of("unsupported operating system").as_slice()));
    };
    let a = if is(arch, "x86_64") {
        "amd64"
    } else if is(arch, "aarch64") {
        "arm64"
    } else {
        return Err(string_of(chars_of("unsupported architecture").as_slice()));
    };
    let mut v = chars_of(o);
    let mut dash = chars_of("-");
    v.append(&mut dash);
    let mut w = chars_of(a);
    v.append(&mut w);
    Ok(string_of(v.as_slice()))
}

/// The value of the `tag_name` field on one line of the release description:
/// after `tag_name`, past the next colon, between the next two double quotes.
pub open spec fn tag_on_line(l: Seq<char>) -> Option<Seq<char>> {
    match find(l, "tag_name"@) {
        None => None,
        Some(p) => {
            let a = l.skip((p + "tag_name"@.len()) as int);
            match find_char(a, ':') {
                None => None,
                Some(q) => {
                    let b = a.skip((q + 1) as int);
                    match find_char(b, '"') {
                        None => None,
                        Some(o) => {
                            let rest = b.skip((o + 1) as int);
                            match find_char(rest, '"') {
                                None => None,
                                Some(c) => Some(rest.take(c as int)),
                            }
                        },
                    }
                },
            }
        },
    }
}

/// The first of `ls` that contains `pat`.
pub open spec fn first_containing(ls: Seq<Seq<char>>, pat: Seq<char>) -> Option<Seq<char>>
    decreases ls.len(),
{
    if ls.len() == 0 {
        None
    } else if contains(ls[0], pat) {
        Some(ls[0])
    } else {
        first_containing(ls.drop_first(), pat)
    }
}

/// The latest release tag in a release description: read from its first line
/// that holds the quoted key `tag_name`.
pub open spec fn tag_name_of(body: Seq<char>) -> Option<Seq<char>> {
    match first_containing(lines(body), "\"tag_name\""@) {
        None => None,
        Some(l) => tag_on_line(l),
    }
}

fn tag_on_line_exec(l: &[char]) -> (r: Option<Vec<char>>)
    ensures
        match (r, tag_on_line(l@)) {
            (Some(t), Some(u)) => t@ == u,
            (None, None) => true,
            _ => false,
        },
{
    let key = chars_of("tag_name");
    let found = find_seq(l, key.as_slice());
    let p = match found {
        None => return None,
        Some(p) => p,
    };
    let n = l.len();
    assert(p + key@.len() <= n);
    let a = slice_of(l, p + key.len(), n);
    assert(a@ =~= l@.skip(p + "tag_name"@.len()));
    let q = match find_ch(a.as_slice(), ':') {
        None => return None,
        Some(q) => q,
    };
    let b = slice_of(a.as_slice(), q + 1, a.len());
    assert(b@ =~= a@.skip(q + 1));
    let o = match find_ch(b.as_slice(), '"') {
        None => return None,
        Some(o) => o,
    };
    let rest = slice_of(b.as_slice(), o + 1, b.len());
    assert(rest@ =~= b@.skip(o + 1));
    match find_ch(rest.as_slice(), '"') {
        None => None,
        Some(c) => {
            let t = slice_of(rest.as_slice(), 0, c);
            assert(t@ =~= rest@.take(c as int));
            Some(t)
        },
    }
}

/// The latest release tag named in the release description `body`, if it names one.
pub fn parse_tag_name(body: &str) -> (r: Option<String>)
    ensures
        match (r, tag_name_of(body@)) {
            (Some(t), Some(u)) => t@ == u,
            (None, None) => true,
            _ => false,
        },
{
    let c = chars_of(body);
    let ls = split_lines(c.as_slice());
    let ghost l = vv(ls@);
    let key = chars_of("\"tag_name\"");
    let mut i: usize = 0;
    assert(l.skip(0) =~= l);
    while i < ls.len()
        invariant
            i <= ls@.len(),
            l == vv(ls@),
            l == lines(body@),
            key@ == "\"tag_name\""@,
            first_containing(l, "\"tag_name\""@) == first_containing(l.skip(i as int), "\"tag_name\""@),
        decreases ls.len() - i,
    {
        assert(l.skip(i as int)[0] == l[i as int]);
        assert(l.skip(i as int).drop_first() =~= l.skip(i + 1));
        if find_seq(ls[i].as_slice(), key.as_slice()).is_some() {
            return match tag_on_line_exec(ls[i].as_slice()) {
                None => None,
                Some(t) => Some(string_of(t.as_slice())),
            };
        }
        i += 1;
    }
    None
}

/// A release tag without its leading `v`.
pub open spec fn version_of_tag(tag: Seq<char>) -> Seq<char> {
    if tag.len() > 0 && tag[0] == 'v' { tag.drop_first() } else { tag }
}

/// The version that the release tag `tag` names.
pub fn tag_version(tag: &str) -> (r: String)
    ensures
        r@ == version_of_tag(tag@),
{
    let t = chars_of(tag);
    if t.len() > 0 && t[0] == 'v' {
        let v = slice_of(t.as_slice(), 1, t.len());
        assert(v@ =~= t@.drop_first());
        string_of(v.as_slice())
    } else {
        string_of(t.as_slice())
    }
}

/// Where the release archive of `tag` for `target` is published.
pub fn release_url(tag: &str, target: &str) -> (r: String)
    ensures
        r@ == "https://github.com/av/facts/releases/download/"@ + tag@ + "/facts-"@ + target@
            + ".tar.gz"@,
{
    let mut v = chars_of("https://github.com/av/facts/releases/download/");
    let mut a = chars_of(tag);
    let mut b = chars_of("/facts-");
    let mut c = chars_of(target);
    let mut d = chars_of(".tar.gz");
    v.append(&mut a);
    v.append(&mut b);
    v.append(&mut c);
    v.append(&mut d);
    string_of(v.as_slice())
}

} // verus!
