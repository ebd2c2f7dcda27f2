//! Paths as texts: their components, and where the library of the installed Pi
//! lies.
use crate::auth::{managed_version, release_name};
use crate::lines::{
    fields, lemma_upto, lemma_upto_unique, rows, split_fields, texts, upto,
};
use crate::sessions::{below, join_path};
use crate::text::{chars_of, copy, ends, same, same_chars, starts, starts_text, text_of, trim};
use vstd::prelude::*;

verus! {

/// The name of the package that holds Pi.
pub const PACKAGE: &'static str = "pi-coding-agent";

/// Where a release keeps its library.
pub const LIBRARY: &'static str =
    "node_modules/@earendil-works/pi-coding-agent/dist/index.js";

// ---------------------------------------------------------------------------
// Components
// ---------------------------------------------------------------------------

/// A field that is a component: it is not empty, and `.` is one only in front.
pub open spec fn is_component(parts: Seq<Seq<char>>, i: int) -> bool {
    parts[i].len() > 0 && (i == 0 || parts[i] != "."@)
}

/// The components among the first `n` fields.
pub open spec fn kept(parts: Seq<Seq<char>>, n: nat) -> Seq<Seq<char>>
    decreases n,
{
    if n == 0 {
        Seq::empty()
    } else if is_component(parts, n - 1) {
        kept(parts, (n - 1) as nat).push(parts[n - 1])
    } else {
        kept(parts, (n - 1) as nat)
    }
}

/// The components of a path; the root is one.
pub open spec fn components(path: Seq<char>) -> Seq<Seq<char>> {
    let parts = fields(path, '/');
    let root: Seq<Seq<char>> = if starts(path, "/"@) {
        seq!["/"@]
    } else {
        seq![]
    };
    root + kept(parts, parts.len())
}

fn split_path(path: &str) -> (out: Vec<String>)
    ensures
        texts(out@) == components(path@),
{
    let chars = chars_of(path);
    let parts = split_fields(chars.as_slice(), '/');
    let dot = chars_of(".");
    let mut out: Vec<String> = Vec::new();
    if starts_text(chars.as_slice(), "/") {
        out.push(copy("/"));
    }
    let ghost root = texts(out@);
    let ghost all = fields(path@, '/');
    assert(root + kept(all, 0) =~= root);
    let mut i: usize = 0;
    while i < parts.len()
        invariant
            i <= parts@.len(),
            dot@ == "."@,
            rows(parts@) == all,
            texts(out@) == root + kept(all, i as nat),
        decreases parts@.len() - i,
    {
        assert(rows(parts@)[i as int] == parts@[i as int]@);
        let ghost before = out@;
        if parts[i].len() > 0 && (i == 0 || !same_chars(parts[i].as_slice(), dot.as_slice())) {
            out.push(text_of(parts[i].as_slice()));
            assert(texts(out@) =~= texts(before).push(all[i as int]));
            assert(root + kept(all, i as nat).push(all[i as int]) =~= (root + kept(
                all,
                i as nat,
            )).push(all[i as int]));
        }
        i = i + 1;
    }
    assert(all.len() == parts@.len());
    assert(texts(out@) =~= components(path@));
    out
}

/// A name without a directory, which is looked up on the search path.
pub fn is_bare_name(path: &str) -> (r: bool)
    ensures
        r == (components(path@).len() == 1),
{
    let parts = split_path(path);
    assert(texts(parts@).len() == parts@.len());
    parts.len() == 1
}

/// A path that is a directory or lies below it.
pub open spec fn within(path: Seq<char>, dir: Seq<char>) -> bool {
    starts(components(path), components(dir))
}

fn is_within(path: &str, dir: &str) -> (r: bool)
    ensures
        r == within(path@, dir@),
{
    let inner = split_path(path);
    let outer = split_path(dir);
    let ghost a = components(path@);
    let ghost b = components(dir@);
    assert(a.len() == inner@.len() && b.len() == outer@.len());
    if outer.len() > inner.len() {
        return false;
    }
    let mut i: usize = 0;
    while i < outer.len()
        invariant
            i <= outer@.len() <= inner@.len(),
            texts(inner@) == a,
            texts(outer@) == b,
            a == components(path@),
            b == components(dir@),
            forall|j: int| 0 <= j < i ==> a[j] == b[j],
        decreases outer@.len() - i,
    {
        assert(texts(inner@)[i as int] == inner@[i as int]@);
        assert(texts(outer@)[i as int] == outer@[i as int]@);
        if !same(inner[i].as_str(), outer[i].as_str()) {
            assert(starts(a, b) ==> a.subrange(0, b.len() as int)[i as int] == b[i as int]);
            return false;
        }
        i = i + 1;
    }
    assert(a.subrange(0, b.len() as int) =~= b);
    true
}

// ---------------------------------------------------------------------------
// The library of the installed Pi
// ---------------------------------------------------------------------------

/// The path that is made up of components.
pub open spec fn path_of(parts: Seq<Seq<char>>) -> Seq<char>
    decreases parts.len(),
{
    if parts.len() == 0 {
        Seq::empty()
    } else {
        below(path_of(parts.drop_last()), parts.last())
    }
}

/// The first `n` components name the built files of the package.
pub open spec fn in_package(parts: Seq<Seq<char>>, n: int) -> bool {
    2 <= n <= parts.len() && parts[n - 1] == "dist"@ && parts[n - 2] == PACKAGE@
}

/// The libraries of the packages that enclose a file, the nearest first.
pub open spec fn entries(parts: Seq<Seq<char>>, n: nat) -> Seq<Seq<char>>
    decreases n,
{
    if n == 0 {
        Seq::empty()
    } else {
        let farther = entries(parts, (n - 1) as nat);
        if in_package(parts, n as int) {
            seq![below(path_of(parts.take(n as int)), "index.js"@)] + farther
        } else {
            farther
        }
    }
}

fn build_path(parts: &Vec<String>, n: usize) -> (out: String)
    requires
        n <= parts@.len(),
    ensures
        out@ == path_of(texts(parts@).take(n as int)),
{
    let ghost all = texts(parts@);
    let mut out = String::new();
    let mut i: usize = 0;
    assert(out@ =~= path_of(all.take(0)));
    while i < n
        invariant
            i <= n <= parts@.len(),
            all == texts(parts@),
            out@ == path_of(all.take(i as int)),
        decreases n - i,
    {
        assert(texts(parts@)[i as int] == parts@[i as int]@);
        assert(all.take(i + 1).drop_last() =~= all.take(i as int));
        out = join_path(out.as_str(), parts[i].as_str());
        i = i + 1;
    }
    out
}

/// Where the library of the Pi in `file` may lie, the nearest place first.
pub fn package_entries(file: &str) -> (out: Vec<String>)
    ensures
        texts(out@) == entries(components(file@), components(file@).len()),
{
    let parts = split_path(file);
    let ghost all = components(file@);
    assert(all.len() == parts@.len());
    let mut out: Vec<String> = Vec::new();
    let mut n: usize = parts.len();
    assert(texts(out@) + entries(all, n as nat) =~= entries(all, n as nat));
    while n > 0
        invariant
            n <= parts@.len(),
            texts(parts@) == all,
            texts(out@) + entries(all, n as nat) == entries(all, all.len()),
        decreases n,
    {
        let ghost before = out@;
        if n >= 2 {
            assert(texts(parts@)[n - 1] == parts@[n - 1]@);
            assert(texts(parts@)[n - 2] == parts@[n - 2]@);
        }
        if n >= 2 && same(parts[n - 1].as_str(), "dist") && same(parts[n - 2].as_str(), PACKAGE) {
            let dir = build_path(&parts, n);
            out.push(join_path(dir.as_str(), "index.js"));
            proof {
                let entry = below(path_of(all.take(n as int)), "index.js"@);
                let farther = entries(all, (n - 1) as nat);
                assert(texts(out@) =~= texts(before).push(entry));
                assert(texts(before) + (seq![entry] + farther) =~= texts(before).push(entry)
                    + farther);
            }
        }
        n = n - 1;
    }
    assert(texts(out@) + entries(all, 0) =~= texts(out@));
    out
}

/// The directory of Pi's own files, where it is known.
pub fn pi_dir(setting: Option<&str>, home: Option<&str>) -> (r: Option<String>)
    ensures
        match (setting, home) {
            (Some(dir), _) => r is Some && r->0@ == dir@,
            (None, Some(home)) => r is Some && r->0@ == below(home@, ".pi/agent"@),
            (None, None) => r is None,
        },
{
    match (setting, home) {
        (Some(dir), _) => Some(copy(dir)),
        (None, Some(home)) => Some(join_path(home, ".pi/agent")),
        (None, None) => None,
    }
}

/// Whether `pi` is the launcher in Pi's own directory: it lies in its `bin`,
/// or both lead to the same file.
pub fn is_managed_pi(pi: &str, agent: &str, file: Option<&str>, launcher: Option<&str>) -> (r: bool)
    ensures
        r == (within(pi@, below(agent@, "bin"@)) || (file is Some && launcher is Some && file->0@
            == launcher->0@)),
{
    if is_within(pi, join_path(agent, "bin").as_str()) {
        return true;
    }
    match (file, launcher) {
        (Some(file), Some(launcher)) => same(file, launcher),
        _ => false,
    }
}

/// The library of a release.
pub open spec fn managed_library(agent: Seq<char>, version: Seq<char>) -> Seq<char> {
    below(below(below(agent, "install/releases"@), version), LIBRARY@)
}

/// The library of the release that a version file names, if it names one
/// safely.
pub fn managed_entry(agent: &str, contents: &str) -> (r: Option<String>)
    ensures
        match r {
            Some(entry) => release_name(trim(contents@)) && entry@ == managed_library(
                agent@,
                trim(contents@),
            ),
            None => !release_name(trim(contents@)),
        },
{
    match managed_version(contents) {
        None => None,
        Some(version) => {
            let releases = join_path(agent, "install/releases");
            let release = join_path(releases.as_str(), version.as_str());
            Some(join_path(release.as_str(), LIBRARY))
        },
    }
}

// ---------------------------------------------------------------------------
// Laws
// ---------------------------------------------------------------------------

/// Only the library of the package that holds the file is named.
pub proof fn law_libraries_are_of_the_own_package(parts: Seq<Seq<char>>, n: nat, i: int)
    requires
        n <= parts.len(),
        0 <= i < entries(parts, n).len(),
    ensures
        exists|k: int|
            k <= n && #[trigger] in_package(parts, k) && entries(parts, n)[i] == below(
                path_of(parts.take(k)),
                "index.js"@,
            ),
    decreases n,
{
    if n > 0 {
        let farther = entries(parts, (n - 1) as nat);
        if in_package(parts, n as int) {
            if i > 0 {
                law_libraries_are_of_the_own_package(parts, (n - 1) as nat, i - 1);
                assert(entries(parts, n)[i] == farther[i - 1]);
            }
        } else {
            law_libraries_are_of_the_own_package(parts, (n - 1) as nat, i);
        }
    }
}

/// A managed library lies below the releases of its own directory.
pub proof fn law_managed_libraries_lie_below_the_releases(agent: Seq<char>, version: Seq<char>)
    requires
        release_name(version),
    ensures
        starts(managed_library(agent, version), below(agent, "install/releases"@) + "/"@),
        !version.contains('/'),
{
    let releases = below(agent, "install/releases"@);
    reveal_strlit("/");
    reveal_strlit("install/releases");
    assert("install/releases"@.last() == 's');
    assert(releases.last() == 's');
    if ends(releases, "/"@) {
        assert(releases.subrange(releases.len() - 1, releases.len() as int)[0] == '/');
    }
    let release = releases + "/"@ + version;
    let library = managed_library(agent, version);
    assert(library.subrange(0, (releases + "/"@).len() as int) =~= releases + "/"@);
}

/// The fields of two texts with a separator between them are those of the one
/// and then those of the other.
pub proof fn lemma_fields_of_both(a: Seq<char>, b: Seq<char>, c: char)
    ensures
        fields(a + seq![c] + b, c) == fields(a, c) + fields(b, c),
    decreases a.len(),
{
    let s = a + seq![c] + b;
    let k = upto(a, c);
    lemma_upto(a, c);
    assert forall|i: int| 0 <= i < k implies s[i] != c by {
        assert(s[i] == a[i]);
    }
    assert(s[k as int] == c);
    lemma_upto_unique(s, c, k);
    if k >= a.len() {
        assert(s.take(k as int) =~= a);
        assert(s.skip(k as int + 1) =~= b);
    } else {
        let rest = a.skip(k as int + 1);
        lemma_fields_of_both(rest, b, c);
        assert(s.take(k as int) =~= a.take(k as int));
        assert(s.skip(k as int + 1) =~= rest + seq![c] + b);
        assert(seq![a.take(k as int)] + (fields(rest, c) + fields(b, c)) =~= (seq![
            a.take(k as int),
        ] + fields(rest, c)) + fields(b, c));
    }
}

proof fn lemma_kept_before(parts: Seq<Seq<char>>, name: Seq<char>, n: nat)
    requires
        n <= parts.len(),
    ensures
        kept(parts.push(name), n) == kept(parts, n),
    decreases n,
{
    if n > 0 {
        lemma_kept_before(parts, name, (n - 1) as nat);
        assert(parts.push(name)[n - 1] == parts[n - 1]);
    }
}

/// A name below a path is its last component, and the others are those of the
/// path: what lies below a directory is within it.
pub proof fn law_names_are_the_last_component(path: Seq<char>, name: Seq<char>)
    requires
        path.len() > 0,
        path.last() != '/',
        name.len() > 0,
        !name.contains('/'),
        name != "."@,
    ensures
        components(below(path, name)) == components(path).push(name),
        within(below(path, name), path),
{
    reveal_strlit("/");
    assert("/"@ =~= seq!['/']);
    if ends(path, "/"@) {
        assert(path.subrange(path.len() - 1, path.len() as int)[0] == path.last());
    }
    let whole = path + seq!['/'] + name;
    assert(below(path, name) == whole);
    lemma_fields_of_both(path, name, '/');
    lemma_upto(name, '/');
    if upto(name, '/') < name.len() {
        assert(name.contains(name[upto(name, '/') as int]));
    }
    let parts = fields(path, '/');
    assert(fields(whole, '/') =~= parts.push(name));
    lemma_kept_before(parts, name, parts.len());
    assert(parts.len() > 0);
    assert(kept(parts.push(name), (parts.len() + 1) as nat) == kept(parts, parts.len()).push(name));
    assert(whole.subrange(0, 1)[0] == path[0]);
    assert(path.subrange(0, 1)[0] == path[0]);
    assert(path.subrange(0, 1) =~= whole.subrange(0, 1));
    assert(starts(whole, "/"@) == starts(path, "/"@));
    assert(components(whole) =~= components(path).push(name));
    assert(components(whole).subrange(0, components(path).len() as int) =~= components(path));
}

/// Every directory of the package on the way is tried, the nearest first.
pub proof fn law_every_library_is_tried(parts: Seq<Seq<char>>, n: nat, k: int)
    requires
        0 <= k <= n <= parts.len(),
        in_package(parts, k),
    ensures
        entries(parts, n).contains(below(path_of(parts.take(k)), "index.js"@)),
        k == n ==> entries(parts, n)[0] == below(path_of(parts.take(k)), "index.js"@),
        k == n ==> entries(parts, n).skip(1) == entries(parts, (n - 1) as nat),
    decreases n,
{
    let entry = below(path_of(parts.take(k)), "index.js"@);
    let all = entries(parts, n);
    if k == n {
        assert(all[0] == entry);
        assert(all.skip(1) =~= entries(parts, (n - 1) as nat));
    } else {
        law_every_library_is_tried(parts, (n - 1) as nat, k);
        let farther = entries(parts, (n - 1) as nat);
        let i = choose|i: int| 0 <= i < farther.len() && farther[i] == entry;
        if in_package(parts, n as int) {
            assert(all[i + 1] == farther[i]);
        } else {
            assert(all[i] == farther[i]);
        }
    }
}

}
