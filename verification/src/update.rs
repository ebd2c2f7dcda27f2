//! Releases: which of two versions is newer, and when to ask for one.
use crate::json::{decode, parsed, Json, Tree};
use crate::lines::{fields, rows, split_fields, upto};
use crate::number::{all_digits, decimal, lemma_decimal, parse_chars, parse_spec, value};
use crate::text::{cat2, cat3, chars_of, copy, digit, starts, starts_text, strip_prefix};
use vstd::prelude::*;
use vstd::slice::slice_subrange;

verus! {

/// How long a check is good for, in seconds.
pub const CHECK_INTERVAL: u64 = 86_400;

pub const LATEST: &'static str = "https://api.github.com/repos/Rekabytes-Enterprise/hibiscus/releases/latest";

pub const REPOSITORY: &'static str = "Rekabytes-Enterprise/hibiscus";

pub const UNCHECKED: &'static str = "could not check GitHub Releases (offline, rate-limited, or no public release)";

pub const NOT_PREBUILT: &'static str = "self-update is only available for a prebuilt hibiscus in ~/.local/bin (or HIBISCUS_INSTALL_DIR); source/Cargo installs should be updated with cargo install --path .";

/// A number of a version: digits, no zero before others.
pub open spec fn strict(part: Seq<char>) -> bool {
    &&& part.len() > 0
    &&& all_digits(part)
    &&& part.len() > 1 ==> part[0] != '0'
    &&& value(part) <= u64::MAX
}

/// A text without the letter in front.
pub open spec fn without_letter(text: Seq<char>) -> Seq<char> {
    match strip_prefix(text, "v"@) {
        Some(rest) => rest,
        None => text,
    }
}

/// The three numbers of a version.
pub open spec fn version_of(text: Seq<char>) -> Option<(nat, nat, nat)> {
    let parts = fields(without_letter(text), '.');
    if parts.len() == 3 && strict(parts[0]) && strict(parts[1]) && strict(parts[2]) {
        Some((value(parts[0]), value(parts[1]), value(parts[2])))
    } else {
        None
    }
}

pub open spec fn triple(v: [u64; 3]) -> (nat, nat, nat) {
    (v@[0] as nat, v@[1] as nat, v@[2] as nat)
}

fn strict_number(part: &[char]) -> (r: Option<u64>)
    ensures
        match r {
            Some(n) => strict(part@) && n == value(part@),
            None => !strict(part@),
        },
{
    let n: usize = part.len();
    if n == 0 {
        return None;
    }
    let mut i: usize = 0;
    while i < n
        invariant
            i <= n,
            n == part@.len(),
            forall|j: int| 0 <= j < i ==> crate::text::is_digit(#[trigger] part@[j]),
        decreases n - i,
    {
        if !digit(part[i]) {
            assert(!crate::text::is_digit(part@[i as int]));
            return None;
        }
        i = i + 1;
    }
    if n > 1 && part[0] == '0' {
        return None;
    }
    assert(all_digits(part@));
    assert(crate::text::is_digit(part@[0]));
    assert(part@[0] != '+');
    assert(parse_spec(part@, u64::MAX as nat) is Some <==> value(part@) <= u64::MAX);
    parse_chars(part, u64::MAX)
}

/// The three numbers of a strict release version.
pub fn version(text: &str) -> (r: Option<[u64; 3]>)
    ensures
        match r {
            Some(v) => version_of(text@) == Some(triple(v)),
            None => version_of(text@) is None,
        },
{
    let chars = chars_of(text);
    let n: usize = chars.len();
    let body = if n > 0 && chars[0] == 'v' {
        slice_subrange(chars.as_slice(), 1, n)
    } else {
        slice_subrange(chars.as_slice(), 0, n)
    };
    proof {
        reveal_strlit("v");
        assert("v"@ =~= seq!['v']);
        if n > 0 && text@[0] == 'v' {
            assert(text@.subrange(0, 1) =~= seq!['v']);
            assert(body@ =~= text@.skip(1));
        } else {
            if n > 0 {
                assert(text@.subrange(0, 1)[0] == text@[0]);
            }
            assert(body@ =~= text@);
        }
        assert(body@ =~= without_letter(text@));
    }
    let parts = split_fields(body, '.');
    let ghost all = rows(parts@);
    assert(all.len() == parts@.len());
    if parts.len() != 3 {
        return None;
    }
    assert(all[0] == parts@[0]@ && all[1] == parts@[1]@ && all[2] == parts@[2]@);
    let major = match strict_number(parts[0].as_slice()) {
        Some(n) => n,
        None => {
            return None;
        },
    };
    let minor = match strict_number(parts[1].as_slice()) {
        Some(n) => n,
        None => {
            return None;
        },
    };
    let patch = match strict_number(parts[2].as_slice()) {
        Some(n) => n,
        None => {
            return None;
        },
    };
    Some([major, minor, patch])
}

/// A version comes after another.
pub open spec fn newer(a: (nat, nat, nat), b: (nat, nat, nat)) -> bool {
    a.0 > b.0 || (a.0 == b.0 && (a.1 > b.1 || (a.1 == b.1 && a.2 > b.2)))
}

pub fn is_newer(a: &[u64; 3], b: &[u64; 3]) -> (r: bool)
    ensures
        r == newer(triple(*a), triple(*b)),
{
    a[0] > b[0] || (a[0] == b[0] && (a[1] > b[1] || (a[1] == b[1] && a[2] > b[2])))
}

/// The answer to a check: the tag of a newer release, or why there is none.
pub open spec fn checked(release: Option<Tree>, installed: Seq<char>) -> Result<
    Option<Seq<char>>,
    Seq<char>,
> {
    match release {
        None => Err("release data is not JSON"@),
        Some(data) => match data.text_at("tag_name"@) {
            None => Err("release has no version tag"@),
            Some(tag) => match version_of(tag) {
                None => Err("release tag must be vMAJOR.MINOR.PATCH"@),
                Some(latest) => match version_of(installed) {
                    None => Err("invalid installed version"@),
                    Some(current) => Ok(
                        if newer(latest, current) {
                            Some(tag)
                        } else {
                            None
                        },
                    ),
                },
            },
        },
    }
}

/// What the data of a release say for the installed version.
pub fn newer_release(release: Option<&Json>, installed: &str) -> (r: Result<Option<String>, &'static str>)
    ensures
        match r {
            Ok(tag) => checked(
                match release {
                    Some(data) => Some(data@),
                    None => None,
                },
                installed@,
            ) == Ok::<Option<Seq<char>>, Seq<char>>(crate::error::text_view(tag)),
            Err(message) => checked(
                match release {
                    Some(data) => Some(data@),
                    None => None,
                },
                installed@,
            ) == Err::<Option<Seq<char>>, Seq<char>>(message@),
        },
{
    let data = match release {
        None => {
            return Err("release data is not JSON");
        },
        Some(data) => data,
    };
    let tag = match data.text_at("tag_name") {
        None => {
            return Err("release has no version tag");
        },
        Some(tag) => tag,
    };
    let latest = match version(tag) {
        None => {
            return Err("release tag must be vMAJOR.MINOR.PATCH");
        },
        Some(latest) => latest,
    };
    let current = match version(installed) {
        None => {
            return Err("invalid installed version");
        },
        Some(current) => current,
    };
    if is_newer(&latest, &current) {
        Ok(Some(copy(tag)))
    } else {
        Ok(None)
    }
}

/// What a check of the releases says: `fetched` tells whether the request
/// succeeded, and `body` is what it gave.
pub fn check(fetched: bool, body: &[u8], installed: &str) -> (r: Result<Option<String>, &'static str>)
    ensures
        !fetched ==> r is Err && r->Err_0@ == UNCHECKED@,
        fetched ==> match r {
            Ok(tag) => checked(parsed(body@), installed@) == Ok::<Option<Seq<char>>, Seq<char>>(
                crate::error::text_view(tag),
            ),
            Err(message) => checked(parsed(body@), installed@) == Err::<
                Option<Seq<char>>,
                Seq<char>,
            >(message@),
        },
{
    if !fetched {
        return Err(UNCHECKED);
    }
    match decode(body) {
        Some(data) => newer_release(Some(&data), installed),
        None => newer_release(None, installed),
    }
}

/// Why a tag cannot be installed, where it cannot.
pub fn refuse_tag(tag: &str) -> (r: Option<&'static str>)
    ensures
        match r {
            Some(message) => message@ == (if version_of(tag@) is None {
                "invalid release version"@
            } else {
                "release tag must start with v"@
            }) && (version_of(tag@) is None || !starts(tag@, "v"@)),
            None => version_of(tag@) is Some && starts(tag@, "v"@),
        },
{
    if version(tag).is_none() {
        return Some("invalid release version");
    }
    let chars = chars_of(tag);
    if !starts_text(chars.as_slice(), "v") {
        return Some("release tag must start with v");
    }
    None
}

/// The directory of the installed program.
pub fn install_dir(custom: Option<&str>, home: Option<&str>) -> (r: Result<String, &'static str>)
    ensures
        match r {
            Ok(dir) => match custom {
                Some(path) => dir@ == path@,
                None => home matches Some(home) && dir@ == home@ + "/.local/bin"@,
            },
            Err(message) => custom is None && home is None && message@ == "HOME is not set"@,
        },
{
    match custom {
        Some(path) => Ok(copy(path)),
        None => match home {
            Some(home) => Ok(cat2(home, "/.local/bin")),
            None => Err("HOME is not set"),
        },
    }
}

/// Whether the installed program is a prebuilt one: a file of its own, and the
/// one that runs.
pub fn is_prebuilt(exists: bool, symlink: bool, running: bool) -> (r: bool)
    ensures
        r == (exists && !symlink && running),
{
    exists && !symlink && running
}

/// Whether a check is due: `age` is that of the last one, in seconds.
pub fn is_check_due(age: Option<u64>) -> (r: bool)
    ensures
        r == (age is None || age->0 >= CHECK_INTERVAL),
{
    match age {
        Some(age) => age >= CHECK_INTERVAL,
        None => true,
    }
}

/// What is remembered of a check.
pub fn remembered(available: Option<&str>) -> (out: String)
    ensures
        out@ == (match available {
            Some(tag) => tag@,
            None => "current"@,
        }),
{
    match available {
        Some(tag) => copy(tag),
        None => copy("current"),
    }
}

/// What an explicit update says.
pub fn update_message(installed: &str, available: Option<&str>) -> (out: String)
    ensures
        out@ == (match available {
            Some(tag) => "Restart Hibiscus to use "@ + tag@ + "."@,
            None => "Hibiscus "@ + installed@ + " is up to date."@,
        }),
{
    match available {
        Some(tag) => cat3("Restart Hibiscus to use ", tag, "."),
        None => cat3("Hibiscus ", installed, " is up to date."),
    }
}

/// The question whether to update.
pub fn offer_title(tag: &str) -> (out: String)
    ensures
        out@ == "Hibiscus "@ + tag@ + " is available"@,
{
    cat3("Hibiscus ", tag, " is available")
}

/// Whether the question was answered with yes. Later is offered first.
pub fn accepts_offer(choice: Option<usize>) -> (r: bool)
    ensures
        r == (choice == Some(1usize)),
{
    choice == Some(1)
}

/// What is said of an installation.
pub fn install_message(tag: &str, error: Option<&str>) -> (out: String)
    ensures
        out@ == (match error {
            None => "Updated to "@ + tag@ + ". Restart Hibiscus to use it.\n"@,
            Some(error) => "Update failed: "@ + error@ + "\n"@,
        }),
{
    match error {
        None => cat3("Updated to ", tag, ". Restart Hibiscus to use it.\n"),
        Some(error) => cat3("Update failed: ", error, "\n"),
    }
}

// ---------------------------------------------------------------------------
// Laws
// ---------------------------------------------------------------------------

/// Versions are ordered: none is newer than itself, of two different ones
/// exactly one is newer, and what is newer than a newer one is newer.
pub proof fn law_versions_are_ordered(a: (nat, nat, nat), b: (nat, nat, nat), c: (nat, nat, nat))
    ensures
        !newer(a, a),
        a != b ==> newer(a, b) != newer(b, a),
        newer(a, b) && newer(b, c) ==> newer(a, c),
{
}

/// What is offered is always newer than what is installed.
pub proof fn law_only_newer_releases_are_offered(release: Option<Tree>, installed: Seq<char>)
    ensures
        checked(release, installed) matches Ok(Some(tag)) ==> version_of(tag) matches Some(latest)
            && version_of(installed) matches Some(current) && newer(latest, current),
{
}

/// Nothing but digits, dots and the letter in front is in a version.
pub proof fn law_versions_hold_nothing_else(text: Seq<char>, i: int)
    requires
        version_of(text) is Some,
        0 <= i < without_letter(text).len(),
    ensures
        crate::text::is_digit(without_letter(text)[i]) || without_letter(text)[i] == '.',
{
    lemma_fields_chars(without_letter(text), '.', i);
    let parts = fields(without_letter(text), '.');
    if without_letter(text)[i] != '.' {
        let k = choose|k: int|
            0 <= k < parts.len() && (#[trigger] parts[k]).contains(without_letter(text)[i]);
        assert(strict(parts[k]));
        let j = choose|j: int| 0 <= j < parts[k].len() && parts[k][j] == without_letter(text)[i];
        assert(crate::text::is_digit(parts[k][j]));
    }
}

proof fn lemma_fields_chars(s: Seq<char>, c: char, i: int)
    requires
        0 <= i < s.len(),
    ensures
        s[i] == c || exists|k: int|
            0 <= k < fields(s, c).len() && (#[trigger] fields(s, c)[k]).contains(s[i]),
    decreases s.len(),
{
    let k = crate::lines::upto(s, c) as int;
    crate::lines::lemma_upto(s, c);
    if k >= s.len() {
        assert(fields(s, c)[0] == s);
        assert(s.contains(s[i]));
    } else if i < k {
        assert(fields(s, c)[0] == s.take(k));
        assert(s.take(k)[i] == s[i]);
        assert(fields(s, c)[0].contains(s[i]));
    } else if i > k {
        let rest = s.skip(k + 1);
        lemma_fields_chars(rest, c, i - k - 1);
        assert(rest[i - k - 1] == s[i]);
        if s[i] != c {
            let m = choose|m: int|
                0 <= m < fields(rest, c).len() && (#[trigger] fields(rest, c)[m]).contains(s[i]);
            assert(fields(s, c)[m + 1] == fields(rest, c)[m]);
        }
    }
}

proof fn lemma_no_dots(n: nat)
    ensures
        !decimal(n).contains('.'),
        decimal(n)[0] != 'v',
{
    lemma_decimal(n);
    if decimal(n).contains('.') {
        let i = choose|i: int| 0 <= i < decimal(n).len() && decimal(n)[i] == '.';
        assert(crate::text::is_digit(decimal(n)[i]));
    }
    assert(crate::text::is_digit(decimal(n)[0]));
}

proof fn lemma_first_field(a: Seq<char>, b: Seq<char>)
    requires
        !a.contains('.'),
    ensures
        fields(a + seq!['.'] + b, '.') == seq![a] + fields(b, '.'),
        fields(a, '.') == seq![a],
{
    let s = a + seq!['.'] + b;
    assert(s.take(a.len() as int) =~= a);
    lemma_upto_unique_at(s, a);
    assert(s.skip(a.len() as int + 1) =~= b);
    crate::lines::lemma_upto(a, '.');
    assert(upto(a, '.') >= a.len()) by {
        if upto(a, '.') < a.len() {
            assert(a[upto(a, '.') as int] == '.');
        }
    }
}

proof fn lemma_upto_unique_at(s: Seq<char>, a: Seq<char>)
    requires
        a.len() < s.len(),
        s[a.len() as int] == '.',
        s.take(a.len() as int) == a,
        !a.contains('.'),
    ensures
        upto(s, '.') == a.len(),
{
    assert forall|i: int| 0 <= i < a.len() implies s[i] != '.' by {
        assert(s.take(a.len() as int)[i] == s[i]);
        if s[i] == '.' {
            assert(a.contains(a[i]));
        }
    }
    crate::lines::lemma_upto_unique(s, '.', a.len());
}

proof fn lemma_strict(n: nat)
    requires
        n <= u64::MAX,
    ensures
        strict(decimal(n)),
        value(decimal(n)) == n,
{
    lemma_decimal(n);
    if n < 10 {
        assert(decimal(n).len() == 1);
    }
}

/// A version is its three numbers, with or without the letter in front.
pub proof fn law_versions_are_read(a: nat, b: nat, c: nat)
    requires
        a <= u64::MAX,
        b <= u64::MAX,
        c <= u64::MAX,
    ensures
        version_of(decimal(a) + seq!['.'] + (decimal(b) + seq!['.'] + decimal(c))) == Some(
            (a, b, c),
        ),
        version_of(
            seq!['v'] + (decimal(a) + seq!['.'] + (decimal(b) + seq!['.'] + decimal(c))),
        ) == Some((a, b, c)),
{
    let tail = decimal(b) + seq!['.'] + decimal(c);
    let body = decimal(a) + seq!['.'] + tail;
    lemma_no_dots(a);
    lemma_no_dots(b);
    lemma_no_dots(c);
    lemma_strict(a);
    lemma_strict(b);
    lemma_strict(c);
    lemma_first_field(decimal(a), tail);
    lemma_first_field(decimal(b), decimal(c));
    lemma_first_field(decimal(c), decimal(c));
    let parts = fields(body, '.');
    assert(parts =~= seq![decimal(a), decimal(b), decimal(c)]);
    reveal_strlit("v");
    assert("v"@ =~= seq!['v']);
    lemma_decimal(a);
    assert(body[0] == decimal(a)[0]);
    if starts(body, "v"@) {
        assert(body.subrange(0, 1)[0] == 'v');
    }
    assert(without_letter(body) == body);
    let tag = seq!['v'] + body;
    assert(tag.subrange(0, 1) =~= "v"@);
    assert(tag.skip(1) =~= body);
    assert(without_letter(tag) == body);
}

/// The major number decides, then the minor one, then the patch.
pub proof fn law_greater_numbers_are_newer(a: (nat, nat, nat), b: (nat, nat, nat))
    ensures
        a.0 > b.0 ==> newer(a, b),
        a.0 < b.0 ==> !newer(a, b),
        a.0 == b.0 && a.1 > b.1 ==> newer(a, b),
        a.0 == b.0 && a.1 < b.1 ==> !newer(a, b),
        a.0 == b.0 && a.1 == b.1 ==> (newer(a, b) <==> a.2 > b.2),
{
}

/// A newer release is offered by its tag, and one that is not newer is not.
pub proof fn law_newer_releases_are_offered(
    data: Tree,
    tag: Seq<char>,
    installed: Seq<char>,
    latest: (nat, nat, nat),
    current: (nat, nat, nat),
)
    requires
        data.says("tag_name"@, tag),
        version_of(tag) == Some(latest),
        version_of(installed) == Some(current),
    ensures
        newer(latest, current) ==> checked(Some(data), installed) == Ok::<
            Option<Seq<char>>,
            Seq<char>,
        >(Some(tag)),
        !newer(latest, current) ==> checked(Some(data), installed) == Ok::<
            Option<Seq<char>>,
            Seq<char>,
        >(None),
{
}

}
