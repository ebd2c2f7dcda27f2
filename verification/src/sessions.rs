//! Saved sessions: where they are, which belong to a directory, how they are
//! listed, and what of one is shown again.
use crate::error::text_view;
use crate::json::{decode, parsed, Json, Tree};
use crate::lines::{join, join_texts, lemma_texts_push, texts};
use crate::number::{decimal, decimal_text, parse_chars, parse_spec};
use crate::screen::trees;
use crate::text::{
    cat2, cat3, cat4, chars_of, copy, ends, first_n, is_text_le, lemma_text_le_total,
    lemma_text_le_transitive, same, starts, starts_text, text_le, text_of, trim, trim_start_of,
    trimmed, trimmed_start_of,
};
use crate::ui::{assistant_of, first_chars, Ui};
use vstd::prelude::*;
use vstd::utf8::encode_utf8;

verus! {

/// How many turns of a session are shown again.
pub const RECENT_TURNS: usize = 5;

pub const NO_SESSIONS: &'static str = "No saved sessions for this directory.";

/// A saved session. The time is in nanoseconds.
pub struct SessionInfo {
    pub path: String,
    pub title: String,
    pub modified: u128,
}

/// What a [`SessionInfo`] holds.
#[verifier::ext_equal]
pub struct SessionView {
    pub path: Seq<char>,
    pub title: Seq<char>,
    pub modified: u128,
}

impl View for SessionInfo {
    type V = SessionView;

    open spec fn view(&self) -> SessionView {
        SessionView { path: self.path@, title: self.title@, modified: self.modified }
    }
}

pub open spec fn session_views(sessions: Seq<SessionInfo>) -> Seq<SessionView> {
    Seq::new(sessions.len(), |i: int| sessions[i]@)
}

// ---------------------------------------------------------------------------
// Where sessions are
// ---------------------------------------------------------------------------

/// A path below a directory.
pub open spec fn below(dir: Seq<char>, path: Seq<char>) -> Seq<char> {
    if dir.len() == 0 || ends(dir, "/"@) {
        dir + path
    } else {
        dir + "/"@ + path
    }
}

pub fn join_path(dir: &str, path: &str) -> (out: String)
    ensures
        out@ == below(dir@, path@),
{
    let chars = chars_of(dir);
    let slash = chars_of("/");
    if chars.len() == 0 || crate::text::ends_with(chars.as_slice(), slash.as_slice()) {
        cat2(dir, path)
    } else {
        cat3(dir, "/", path)
    }
}

/// A path, relative to the working directory.
pub open spec fn resolved(path: Seq<char>, cwd: Seq<char>) -> Seq<char> {
    if starts(path, "/"@) {
        path
    } else {
        below(cwd, path)
    }
}

pub fn resolve(path: &str, cwd: &str) -> (out: String)
    ensures
        out@ == resolved(path@, cwd@),
{
    let chars = chars_of(path);
    if starts_text(chars.as_slice(), "/") {
        copy(path)
    } else {
        join_path(cwd, path)
    }
}

/// The directory that a setting names, where it names one.
pub fn named_dir(setting: Option<&str>, cwd: &str) -> (r: Option<String>)
    ensures
        match setting {
            Some(path) => if path@.len() > 0 {
                r is Some && r->0@ == resolved(path@, cwd@)
            } else {
                r is None
            },
            None => r is None,
        },
{
    match setting {
        Some(path) => if chars_of(path).len() > 0 {
            Some(resolve(path, cwd))
        } else {
            None
        },
        None => None,
    }
}

/// The directory of Pi's own files.
pub fn agent_dir(setting: Option<&str>, home: Option<&str>, cwd: &str) -> (r: Result<
    String,
    &'static str,
>)
    ensures
        match r {
            Ok(dir) => if setting matches Some(path) && path@.len() > 0 {
                dir@ == resolved(setting->0@, cwd@)
            } else {
                home matches Some(home) && dir@ == below(home@, ".pi/agent"@)
            },
            Err(message) => !(setting matches Some(path) && path@.len() > 0) && home is None
                && message@ == "HOME is not set"@,
        },
{
    match named_dir(setting, cwd) {
        Some(dir) => Ok(dir),
        None => match home {
            Some(home) => Ok(join_path(home, ".pi/agent")),
            None => Err("HOME is not set"),
        },
    }
}

/// The directory that some settings name.
pub open spec fn settings_dir_of(settings: Option<Tree>, cwd: Seq<char>) -> Result<
    Option<Seq<char>>,
    Seq<char>,
> {
    match settings {
        None => Err("Pi settings are not valid JSON"@),
        Some(data) => Ok(
            match data.text_at("sessionDir"@) {
                Some(dir) => if dir.len() > 0 {
                    Some(resolved(dir, cwd))
                } else {
                    None
                },
                None => None,
            },
        ),
    }
}

/// The directory that settings name, as they were read.
pub fn dir_of_settings(settings: Option<&Json>, cwd: &str) -> (r: Result<Option<String>, &'static str>)
    ensures
        ({
            let tree = match settings {
                Some(data) => Some(data@),
                None => None,
            };
            match r {
                Ok(dir) => settings_dir_of(tree, cwd@) == Ok::<Option<Seq<char>>, Seq<char>>(
                    text_view(dir),
                ),
                Err(message) => settings_dir_of(tree, cwd@) == Err::<Option<Seq<char>>, Seq<char>>(
                    message@,
                ),
            }
        }),
{
    match settings {
        None => Err("Pi settings are not valid JSON"),
        Some(data) => Ok(named_dir(data.text_at("sessionDir"), cwd)),
    }
}

/// The directory that a settings file names.
pub fn settings_dir(bytes: &[u8], cwd: &str) -> (r: Result<Option<String>, &'static str>)
    ensures
        match r {
            Ok(dir) => settings_dir_of(parsed(bytes@), cwd@) == Ok::<Option<Seq<char>>, Seq<char>>(
                text_view(dir),
            ),
            Err(message) => settings_dir_of(parsed(bytes@), cwd@) == Err::<
                Option<Seq<char>>,
                Seq<char>,
            >(message@),
        },
{
    match decode(bytes) {
        Some(data) => dir_of_settings(Some(&data), cwd),
        None => dir_of_settings(None, cwd),
    }
}

/// A path as part of a file name.
pub open spec fn dashed(path: Seq<char>) -> Seq<char> {
    Seq::new(
        path.len(),
        |i: int|
            if path[i] == '/' || path[i] == '\\' || path[i] == ':' {
                '-'
            } else {
                path[i]
            },
    )
}

fn dash(path: &[char]) -> (out: Vec<char>)
    ensures
        out@ == dashed(path@),
{
    let n: usize = path.len();
    let mut out: Vec<char> = Vec::new();
    let mut i: usize = 0;
    while i < n
        invariant
            i <= n,
            n == path@.len(),
            out@ == dashed(path@).take(i as int),
        decreases n - i,
    {
        let c = path[i];
        out.push(
            if c == '/' || c == '\\' || c == ':' {
                '-'
            } else {
                c
            },
        );
        i = i + 1;
        assert(out@ =~= dashed(path@).take(i as int));
    }
    assert(dashed(path@).take(n as int) =~= dashed(path@));
    out
}

/// The directory of the sessions of a working directory, where nothing else is
/// said.
pub fn default_dir(agent: &str, cwd: &str) -> (out: String)
    ensures
        out@ == below(
            below(agent@, "sessions"@),
            "--"@ + dashed(trim_start_of(cwd@, '/')) + "--"@,
        ),
{
    let chars = chars_of(cwd);
    let name = dash(trimmed_start_of(chars.as_slice(), '/'));
    let name = text_of(name.as_slice());
    let dir = join_path(agent, "sessions");
    join_path(dir.as_str(), cat3("--", name.as_str(), "--").as_str())
}

/// Whether an entry of the directory may be a session.
pub fn is_candidate(extension: Option<&str>, file: bool) -> (r: bool)
    ensures
        r == ((extension matches Some(ext) && ext@ == "jsonl"@) && file),
{
    match extension {
        Some(ext) => same(ext, "jsonl") && file,
        None => false,
    }
}

// ---------------------------------------------------------------------------
// What a session is about
// ---------------------------------------------------------------------------

/// What is shown of the first `n` parts of a message.
pub open spec fn part_texts(parts: Seq<Tree>, n: nat) -> Seq<Seq<char>>
    decreases n,
{
    if n == 0 {
        Seq::empty()
    } else {
        let rest = part_texts(parts, (n - 1) as nat);
        let part = parts[n - 1];
        if part.says("type"@, "text"@) {
            match part.text_at("text"@) {
                Some(text) => rest.push(text),
                None => rest,
            }
        } else if part.says("type"@, "image"@) {
            rest.push("[image attached]"@)
        } else {
            rest
        }
    }
}

/// What is shown of a message.
pub open spec fn content_of(content: Tree) -> Option<Seq<char>> {
    match content {
        Tree::Text(text) => Some(text),
        Tree::List(parts) => {
            let text = join(part_texts(parts, parts.len()), " "@);
            if text.len() > 0 {
                Some(text)
            } else {
                None
            }
        },
        _ => None,
    }
}

/// What is shown of a message: its text, and that images are attached.
pub fn content_text(content: &Json) -> (r: Option<String>)
    ensures
        text_view(r) == content_of(content@),
{
    if let Some(text) = content.as_text() {
        return Some(copy(text));
    }
    match content.as_list() {
        None => None,
        Some(parts) => {
            let ghost all = content@.list()->0;
            let mut shown: Vec<String> = Vec::new();
            let mut i: usize = 0;
            assert(texts(shown@) =~= Seq::empty());
            while i < parts.len()
                invariant
                    i <= parts@.len(),
                    all.len() == parts@.len(),
                    forall|j: int| 0 <= j < parts@.len() ==> (#[trigger] parts@[j])@ == all[j],
                    texts(shown@) == part_texts(all, i as nat),
                decreases parts@.len() - i,
            {
                let part = &parts[i];
                assert(parts@[i as int]@ == all[i as int]);
                if part.says("type", "text") {
                    if let Some(text) = part.text_at("text") {
                        let line = copy(text);
                        proof {
                            lemma_texts_push(shown@, line);
                        }
                        shown.push(line);
                    }
                } else if part.says("type", "image") {
                    let line = copy("[image attached]");
                    proof {
                        lemma_texts_push(shown@, line);
                    }
                    shown.push(line);
                }
                i = i + 1;
            }
            let text = join_texts(&shown, " ");
            if chars_of(text.as_str()).len() > 0 {
                Some(text)
            } else {
                None
            }
        },
    }
}

/// The header of a session of the directory `cwd`.
pub open spec fn heads(header: Tree, cwd: Option<Seq<char>>) -> bool {
    &&& header.says("type"@, "session"@)
    &&& header.text_at("id"@) is Some
    &&& header.text_at("cwd"@) == cwd
}

/// Whether a record is the header of a session of the directory `cwd`.
pub fn is_header(header: &Json, cwd: Option<&str>) -> (r: bool)
    ensures
        r == heads(
            header@,
            match cwd {
                Some(path) => Some(path@),
                None => None,
            },
        ),
{
    if !header.says("type", "session") || header.text_at("id").is_none() {
        return false;
    }
    match (header.text_at("cwd"), cwd) {
        (Some(path), Some(cwd)) => same(path, cwd),
        (None, None) => true,
        _ => false,
    }
}

/// Whether the first line of a file is such a header.
pub fn is_header_line(line: &str, cwd: Option<&str>) -> (r: bool)
    ensures
        r == (parsed(encode_utf8(line@)) matches Some(header) && heads(
            header,
            match cwd {
                Some(path) => Some(path@),
                None => None,
            },
        )),
{
    match decode(line.as_bytes()) {
        Some(header) => is_header(&header, cwd),
        None => false,
    }
}

/// What was read of a session.
pub struct Inspection {
    pub title: Option<String>,
    pub first: Option<String>,
    pub messages: bool,
}

/// What an [`Inspection`] holds.
#[verifier::ext_equal]
pub struct InspectionView {
    pub title: Option<Seq<char>>,
    pub first: Option<Seq<char>>,
    pub messages: bool,
}

impl View for Inspection {
    type V = InspectionView;

    open spec fn view(&self) -> InspectionView {
        InspectionView {
            title: text_view(self.title),
            first: text_view(self.first),
            messages: self.messages,
        }
    }
}

impl InspectionView {
    /// One more record.
    pub open spec fn noted(self, record: Tree) -> InspectionView {
        if record.says("type"@, "session_info"@) {
            InspectionView {
                title: match record.text_at("name"@) {
                    Some(name) => if name.len() > 0 {
                        Some(name)
                    } else {
                        None
                    },
                    None => None,
                },
                ..self
            }
        } else if record.says("type"@, "message"@) {
            let message = record.at("message"@);
            InspectionView {
                messages: true,
                first: if self.first is None && message.says("role"@, "user"@) {
                    content_of(message.at("content"@))
                } else {
                    self.first
                },
                ..self
            }
        } else {
            self
        }
    }

    /// What the session is called; none, where nothing was said in it.
    pub open spec fn name(self) -> Option<Seq<char>> {
        if !self.messages {
            None
        } else if self.title is Some {
            self.title
        } else if self.first is Some {
            self.first
        } else {
            Some("(no messages)"@)
        }
    }
}

impl Inspection {
    pub fn new() -> (r: Self)
        ensures
            r@ == (InspectionView { title: None, first: None, messages: false }),
    {
        Inspection { title: None, first: None, messages: false }
    }

    /// One more record.
    pub fn note(&mut self, record: &Json)
        ensures
            final(self)@ == old(self)@.noted(record@),
    {
        if record.says("type", "session_info") {
            self.title = match record.text_at("name") {
                Some(name) => if chars_of(name).len() > 0 {
                    Some(copy(name))
                } else {
                    None
                },
                None => None,
            };
        } else if record.says("type", "message") {
            self.messages = true;
            let message = record.at("message");
            if self.first.is_none() && message.says("role", "user") {
                self.first = content_text(message.at("content"));
            }
        }
        assert(self@ =~= old(self)@.noted(record@));
    }

    /// One more line; what is no record is passed over.
    pub fn note_line(&mut self, line: &str)
        ensures
            final(self)@ == (match parsed(encode_utf8(line@)) {
                Some(record) => old(self)@.noted(record),
                None => old(self)@,
            }),
    {
        if let Some(record) = decode(line.as_bytes()) {
            self.note(&record);
        }
    }

    /// What the session is called.
    pub fn name(self) -> (r: Option<String>)
        ensures
            text_view(r) == self@.name(),
    {
        if !self.messages {
            return None;
        }
        if self.title.is_some() {
            return self.title;
        }
        if self.first.is_some() {
            return self.first;
        }
        Some(copy("(no messages)"))
    }
}

// ---------------------------------------------------------------------------
// The list
// ---------------------------------------------------------------------------

/// A session may stand before another: it is newer, or as old and its path
/// does not come after.
pub open spec fn precedes(a: SessionView, b: SessionView) -> bool {
    a.modified > b.modified || (a.modified == b.modified && text_le(a.path, b.path))
}

pub open spec fn ordered(sessions: Seq<SessionView>) -> bool {
    forall|i: int, j: int|
        0 <= i < j < sessions.len() ==> precedes(#[trigger] sessions[i], #[trigger] sessions[j])
}

proof fn lemma_precedes_transitive(a: SessionView, b: SessionView, c: SessionView)
    requires
        precedes(a, b),
        precedes(b, c),
    ensures
        precedes(a, c),
{
    if a.modified == b.modified && b.modified == c.modified {
        lemma_text_le_transitive(a.path, b.path, c.path);
    }
}

fn comes_first(a: &SessionInfo, b: &SessionInfo) -> (r: bool)
    ensures
        r == precedes(a@, b@),
        !r ==> precedes(b@, a@),
{
    proof {
        lemma_text_le_total(a@.path, b@.path);
    }
    a.modified > b.modified || (a.modified == b.modified && is_text_le(
        a.path.as_str(),
        b.path.as_str(),
    ))
}

/// Sessions, the latest first; of two that are as old, by their paths.
pub fn newest_first(sessions: Vec<SessionInfo>) -> (out: Vec<SessionInfo>)
    ensures
        ordered(session_views(out@)),
        session_views(out@).to_multiset() == session_views(sessions@).to_multiset(),
{
    let ghost all = session_views(sessions@);
    let mut left = sessions;
    let mut out: Vec<SessionInfo> = Vec::new();
    proof {
        assert(session_views(out@) =~= Seq::empty());
        broadcast use vstd::seq_lib::group_to_multiset_ensures;
        assert(session_views(out@).to_multiset() =~= vstd::multiset::Multiset::empty());
        assert(all.to_multiset() =~= all.to_multiset().add(vstd::multiset::Multiset::empty()));
    }
    while left.len() > 0
        invariant
            ordered(session_views(out@)),
            all.to_multiset() =~= session_views(left@).to_multiset().add(
                session_views(out@).to_multiset(),
            ),
        decreases left@.len(),
    {
        let ghost before = session_views(left@);
        let ghost placed = session_views(out@);
        let last: usize = left.len() - 1;
        let item = left.remove(last);
        let ghost v = item@;
        assert(session_views(left@) =~= before.remove(last as int));
        let n: usize = out.len();
        let mut k: usize = 0;
        while k < n && comes_first(&out[k], &item)
            invariant
                k <= n,
                n == out@.len(),
                session_views(out@) == placed,
                v == item@,
                forall|i: int| 0 <= i < k ==> precedes(#[trigger] placed[i], v),
            decreases n - k,
        {
            assert(placed[k as int] == out@[k as int]@);
            k = k + 1;
        }
        proof {
            if k < n {
                assert(placed[k as int] == out@[k as int]@);
                assert(precedes(v, placed[k as int]));
                assert forall|i: int| k <= i < n implies precedes(v, #[trigger] placed[i]) by {
                    if i > k {
                        lemma_precedes_transitive(v, placed[k as int], placed[i]);
                    }
                }
            }
        }
        out.insert(k, item);
        proof {
            let now = session_views(out@);
            assert(now =~= placed.insert(k as int, v));
            assert(ordered(now)) by {
                assert forall|i: int, j: int| 0 <= i < j < now.len() implies precedes(
                    #[trigger] now[i],
                    #[trigger] now[j],
                ) by {
                    if i < k && j < k {
                        assert(now[i] == placed[i] && now[j] == placed[j]);
                    } else if i < k && j == k {
                        assert(now[i] == placed[i]);
                    } else if i < k {
                        assert(now[i] == placed[i] && now[j] == placed[j - 1]);
                    } else if i == k {
                        assert(now[j] == placed[j - 1]);
                    } else {
                        assert(now[i] == placed[i - 1] && now[j] == placed[j - 1]);
                    }
                }
            }
            broadcast use vstd::seq_lib::group_to_multiset_ensures;
            assert(now.remove(k as int) =~= placed);
            assert(placed.to_multiset() =~= now.to_multiset().remove(v));
            assert(now.to_multiset().count(v) > 0) by {
                assert(now[k as int] == v);
                assert(now.contains(v));
            }
            assert(before.to_multiset().count(v) > 0) by {
                assert(before[last as int] == v);
                assert(before.contains(v));
            }
            assert(before.remove(last as int).to_multiset() =~= before.to_multiset().remove(v));
            assert(all.to_multiset() =~= session_views(left@).to_multiset().add(
                now.to_multiset(),
            ));
        }
    }
    proof {
        assert(session_views(left@) =~= Seq::empty());
        broadcast use vstd::seq_lib::group_to_multiset_ensures;
        assert(session_views(left@).to_multiset() =~= vstd::multiset::Multiset::empty());
    }
    out
}

/// A title on one line.
pub open spec fn one_line(title: Seq<char>) -> Seq<char> {
    Seq::new(
        title.len(),
        |i: int|
            if title[i] == '\r' || title[i] == '\n' {
                ' '
            } else {
                title[i]
            },
    )
}

fn unbroken(title: &str) -> (out: String)
    ensures
        out@ == one_line(title@),
{
    let chars = chars_of(title);
    let n: usize = chars.len();
    let mut out: Vec<char> = Vec::new();
    let mut i: usize = 0;
    while i < n
        invariant
            i <= n,
            n == chars@.len(),
            chars@ == title@,
            out@ == one_line(title@).take(i as int),
        decreases n - i,
    {
        let c = chars[i];
        out.push(
            if c == '\r' || c == '\n' {
                ' '
            } else {
                c
            },
        );
        i = i + 1;
        assert(out@ =~= one_line(title@).take(i as int));
    }
    assert(one_line(title@).take(n as int) =~= one_line(title@));
    text_of(out.as_slice())
}

/// The rows of the first `n` sessions.
pub open spec fn menu_rows(sessions: Seq<SessionView>, n: nat) -> Seq<char>
    decreases n,
{
    if n == 0 {
        "Sessions for this directory (most recently updated first):\n"@
    } else {
        menu_rows(sessions, (n - 1) as nat) + ("  "@ + decimal(n) + ". "@ + first_n(
            one_line(sessions[n - 1].title),
            80,
        ) + "\n"@)
    }
}

pub open spec fn menu_of(sessions: Seq<SessionView>) -> Seq<char> {
    if sessions.len() == 0 {
        "No saved sessions for this directory.\n"@
    } else {
        menu_rows(sessions, sessions.len())
    }
}

/// The list as text.
pub fn menu(sessions: &Vec<SessionInfo>) -> (out: String)
    ensures
        out@ == menu_of(session_views(sessions@)),
{
    let n: usize = sessions.len();
    let ghost all = session_views(sessions@);
    if n == 0 {
        return copy("No saved sessions for this directory.\n");
    }
    let mut out = copy("Sessions for this directory (most recently updated first):\n");
    let mut i: usize = 0;
    while i < n
        invariant
            i <= n,
            n == sessions@.len(),
            all == session_views(sessions@),
            out@ == menu_rows(all, i as nat),
        decreases n - i,
    {
        assert(all[i as int] == sessions@[i as int]@);
        let title = unbroken(sessions[i].title.as_str());
        let preview = first_chars(title.as_str(), 80);
        let number = decimal_text((i + 1) as u64);
        let row = crate::text::cat5("  ", number.as_str(), ". ", preview.as_str(), "\n");
        out.append(row.as_str());
        i = i + 1;
    }
    out
}

/// What an answer to the list means: the place of a session, or nothing.
pub open spec fn chosen(answer: Option<Seq<char>>, count: nat) -> Result<Option<nat>, Seq<char>> {
    match answer {
        None => Ok(None),
        Some(line) => if trim(line).len() == 0 {
            Ok(None)
        } else {
            match parse_spec(trim(line), usize::MAX as nat) {
                None => Err("enter a session number from the list"@),
                Some(n) => if 1 <= n <= count {
                    Ok(Some((n - 1) as nat))
                } else {
                    Err("invalid session number"@)
                },
            }
        },
    }
}

/// The place of the session that an answer chooses among `count`.
pub fn pick(answer: Option<&str>, count: usize) -> (r: Result<Option<usize>, &'static str>)
    ensures
        ({
            let want = chosen(
                match answer {
                    Some(line) => Some(line@),
                    None => None,
                },
                count as nat,
            );
            match r {
                Ok(Some(i)) => want == Ok::<Option<nat>, Seq<char>>(Some(i as nat)) && i < count,
                Ok(None) => want == Ok::<Option<nat>, Seq<char>>(None),
                Err(message) => want == Err::<Option<nat>, Seq<char>>(message@),
            }
        }),
{
    let line = match answer {
        None => {
            return Ok(None);
        },
        Some(line) => line,
    };
    let chars = chars_of(line);
    let body = trimmed(chars.as_slice());
    if body.len() == 0 {
        return Ok(None);
    }
    match parse_chars(body, usize::MAX as u64) {
        None => Err("enter a session number from the list"),
        Some(n) => if 1 <= n && n <= count as u64 {
            Ok(Some((n - 1) as usize))
        } else {
            Err("invalid session number")
        },
    }
}

// ---------------------------------------------------------------------------
// What is shown again
// ---------------------------------------------------------------------------

/// The places of the messages of the user among the first `n`.
pub open spec fn turns(messages: Seq<Tree>, n: nat) -> Seq<int>
    decreases n,
{
    if n == 0 {
        Seq::empty()
    } else {
        let rest = turns(messages, (n - 1) as nat);
        if messages[n - 1].says("role"@, "user"@) {
            rest.push(n - 1)
        } else {
            rest
        }
    }
}

/// Where the latest turns begin.
pub open spec fn recent_start(messages: Seq<Tree>) -> Option<int> {
    let all = turns(messages, messages.len());
    if all.len() == 0 {
        None
    } else if all.len() <= RECENT_TURNS {
        Some(all[0])
    } else {
        Some(all[all.len() - RECENT_TURNS])
    }
}

/// What is shown of a message.
pub open spec fn shown_of(message: Tree, ui: Ui) -> Seq<char> {
    let user = message.says("role"@, "user"@);
    match content_of(message.at("content"@)) {
        Some(content) => if content.len() > 0 && (user || message.says("role"@, "assistant"@)) {
            if ui.interactive {
                (if user {
                    crate::ui::styled(ui.color, "1;38;2;255;155;187"@, "you ›"@) + " "@
                } else {
                    assistant_of(ui)
                }) + content + "\n"@
            } else {
                (if user {
                    "you"@
                } else {
                    "assistant"@
                }) + "> "@ + content + "\n"@
            }
        } else {
            Seq::empty()
        },
        None => Seq::empty(),
    }
}

/// What is shown of the messages from `start` to `end`.
pub open spec fn shown_from(messages: Seq<Tree>, start: int, end: int, ui: Ui) -> Seq<char>
    decreases end - start,
{
    if end <= start {
        Seq::empty()
    } else {
        shown_from(messages, start, end - 1, ui) + shown_of(messages[end - 1], ui)
    }
}

/// The latest turns: what the user and Pi said, and nothing else.
pub open spec fn recent_of(messages: Seq<Tree>, ui: Ui) -> Seq<char> {
    match recent_start(messages) {
        None => Seq::empty(),
        Some(start) => {
            let text = shown_from(messages, start, messages.len() as int, ui);
            if text.len() > 0 {
                text + "\n"@
            } else {
                text
            }
        },
    }
}

fn start_of_recent(messages: &Vec<Json>) -> (r: Option<usize>)
    ensures
        match r {
            Some(i) => i < messages@.len() && recent_start(trees(messages@)) == Some(i as int),
            None => recent_start(trees(messages@)) is None,
        },
{
    let ghost all = trees(messages@);
    let mut places: Vec<usize> = Vec::new();
    let mut i: usize = 0;
    assert(places@.map_values(|p: usize| p as int) =~= Seq::empty());
    while i < messages.len()
        invariant
            i <= messages@.len(),
            all == trees(messages@),
            places@.map_values(|p: usize| p as int) == turns(all, i as nat),
            forall|k: int| 0 <= k < places@.len() ==> #[trigger] places@[k] < messages@.len(),
        decreases messages@.len() - i,
    {
        assert(all[i as int] == messages@[i as int]@);
        let ghost before = places@;
        if messages[i].says("role", "user") {
            places.push(i);
            assert(places@.map_values(|p: usize| p as int) =~= before.map_values(
                |p: usize| p as int,
            ).push(i as int));
        }
        i = i + 1;
    }
    let n: usize = places.len();
    assert(turns(all, all.len()).len() == n);
    if n == 0 {
        None
    } else if n <= RECENT_TURNS {
        assert(turns(all, all.len())[0] == places@[0]);
        Some(places[0])
    } else {
        assert(turns(all, all.len())[n - RECENT_TURNS] == places@[n - RECENT_TURNS]);
        Some(places[n - RECENT_TURNS])
    }
}

fn show(message: &Json, ui: &Ui) -> (out: String)
    ensures
        out@ == shown_of(message@, *ui),
{
    let user = message.says("role", "user");
    if user || message.says("role", "assistant") {
        if let Some(content) = content_text(message.at("content")) {
            if chars_of(content.as_str()).len() > 0 {
                if ui.interactive {
                    let label = if user {
                        ui.user()
                    } else {
                        ui.assistant()
                    };
                    return cat3(label.as_str(), content.as_str(), "\n");
                }
                let label = if user {
                    "you"
                } else {
                    "assistant"
                };
                return cat4(label, "> ", content.as_str(), "\n");
            }
        }
    }
    let out = String::new();
    assert(out@ =~= Seq::empty());
    out
}

/// The latest turns of a session.
pub fn show_recent_with(messages: &Vec<Json>, ui: &Ui) -> (out: String)
    ensures
        out@ == recent_of(trees(messages@), *ui),
{
    let ghost all = trees(messages@);
    let mut out = String::new();
    assert(out@ =~= Seq::empty());
    let start = match start_of_recent(messages) {
        None => {
            return out;
        },
        Some(start) => start,
    };
    let mut i: usize = start;
    while i < messages.len()
        invariant
            start <= i <= messages@.len(),
            all == trees(messages@),
            out@ == shown_from(all, start as int, i as int, *ui),
        decreases messages@.len() - i,
    {
        assert(all[i as int] == messages@[i as int]@);
        let line = show(&messages[i], ui);
        out.append(line.as_str());
        i = i + 1;
    }
    if chars_of(out.as_str()).len() > 0 {
        out.append("\n");
    }
    out
}

// ---------------------------------------------------------------------------
// Laws
// ---------------------------------------------------------------------------

/// A session of another directory, or without a header, is never listed.
pub proof fn law_only_own_sessions_are_listed(header: Tree, cwd: Seq<char>)
    requires
        heads(header, Some(cwd)),
    ensures
        header.text_at("cwd"@) == Some(cwd),
        header.says("type"@, "session"@),
{
}

/// A session in which nothing was said is never listed.
pub proof fn law_empty_sessions_are_not_listed(i: InspectionView)
    ensures
        i.name() is Some <==> i.messages,
{
}

proof fn lemma_turns(messages: Seq<Tree>, n: nat, k: int)
    requires
        n <= messages.len(),
        0 <= k < turns(messages, n).len(),
    ensures
        0 <= turns(messages, n)[k] < n,
        messages[turns(messages, n)[k]].says("role"@, "user"@),
        forall|j: int| 0 <= j < k ==> turns(messages, n)[j] < turns(messages, n)[k],
        turns(messages, n).len() <= n,
    decreases n,
{
    let rest = turns(messages, (n - 1) as nat);
    if k < rest.len() {
        lemma_turns(messages, (n - 1) as nat, k);
    } else if rest.len() > 0 {
        assert forall|j: int| 0 <= j < k implies turns(messages, n)[j] < turns(messages, n)[k] by {
            lemma_turns(messages, (n - 1) as nat, j);
        }
        lemma_turns(messages, (n - 1) as nat, 0);
    }
}

/// What is shown again begins with a message of the user.
pub proof fn law_history_begins_with_the_user(messages: Seq<Tree>)
    requires
        recent_start(messages) is Some,
    ensures
        0 <= recent_start(messages)->0 < messages.len(),
        messages[recent_start(messages)->0].says("role"@, "user"@),
{
    let all = turns(messages, messages.len());
    if all.len() <= RECENT_TURNS {
        lemma_turns(messages, messages.len(), 0);
    } else {
        lemma_turns(messages, messages.len(), all.len() - RECENT_TURNS);
    }
}

/// At most the last few turns are shown again: fewer messages of the user
/// follow the first one that is shown.
pub proof fn law_history_is_short(messages: Seq<Tree>, k: int)
    requires
        recent_start(messages) is Some,
        0 <= k < turns(messages, messages.len()).len(),
        k + RECENT_TURNS < turns(messages, messages.len()).len(),
    ensures
        turns(messages, messages.len())[k] < recent_start(messages)->0,
{
    let all = turns(messages, messages.len());
    lemma_turns(messages, messages.len(), all.len() - RECENT_TURNS);
}

/// Results of tools, reasoning and system messages stay hidden.
pub proof fn law_history_shows_only_what_was_said(message: Tree, ui: Ui)
    requires
        !message.says("role"@, "user"@),
        !message.says("role"@, "assistant"@),
    ensures
        shown_of(message, ui).len() == 0,
{
}

/// A choice is a session of the list.
pub proof fn law_choices_are_in_the_list(answer: Option<Seq<char>>, count: nat)
    ensures
        chosen(answer, count) matches Ok(Some(i)) ==> i < count,
{
}

/// The messages of the user.
pub open spec fn users(messages: Seq<Tree>) -> Seq<Tree> {
    messages.filter(|m: Tree| m.says("role"@, "user"@))
}

proof fn lemma_users(messages: Seq<Tree>, n: nat)
    requires
        n <= messages.len(),
    ensures
        users(messages.take(n as int)).len() == turns(messages, n).len(),
    decreases n,
{
    reveal(Seq::filter);
    if n > 0 {
        lemma_users(messages, (n - 1) as nat);
        assert(messages.take(n as int).drop_last() =~= messages.take(n - 1));
        assert(messages.take(n as int).last() == messages[n - 1]);
    } else {
        assert(messages.take(0) =~= Seq::empty());
    }
}

proof fn lemma_users_from(messages: Seq<Tree>, k: int)
    requires
        0 <= k < turns(messages, messages.len()).len(),
    ensures
        users(messages.skip(turns(messages, messages.len())[k])).len() == turns(
            messages,
            messages.len(),
        ).len() - k,
{
    let all = turns(messages, messages.len());
    lemma_turns(messages, messages.len(), k);
    let p = all[k];
    lemma_users(messages, messages.len());
    lemma_users(messages, p as nat);
    lemma_turns_before(messages, messages.len(), k);
    assert(messages.take(messages.len() as int) =~= messages);
    let pred = |m: Tree| m.says("role"@, "user"@);
    Seq::filter_distributes_over_add(messages.take(p), messages.skip(p), pred);
    assert(messages.take(p) + messages.skip(p) =~= messages);
}

/// Before the turn `k` there are `k` turns.
proof fn lemma_turns_before(messages: Seq<Tree>, n: nat, k: int)
    requires
        n <= messages.len(),
        0 <= k < turns(messages, n).len(),
    ensures
        0 <= turns(messages, n)[k] < n,
        turns(messages, turns(messages, n)[k] as nat).len() == k,
    decreases n,
{
    let rest = turns(messages, (n - 1) as nat);
    if k < rest.len() {
        lemma_turns_before(messages, (n - 1) as nat, k);
    }
}

/// Of the turns of a session exactly the last five are shown again, or all of
/// them where there are fewer; and none only where the user said nothing.
pub proof fn law_history_shows_the_last_turns(messages: Seq<Tree>)
    ensures
        recent_start(messages) is None <==> users(messages).len() == 0,
        recent_start(messages) matches Some(start) ==> 0 <= start < messages.len() && users(
            messages.skip(start),
        ).len() == if users(messages).len() < 5 {
            users(messages).len()
        } else {
            5
        },
{
    let all = turns(messages, messages.len());
    lemma_users(messages, messages.len());
    assert(messages.take(messages.len() as int) =~= messages);
    if all.len() > 0 {
        let k = if all.len() <= 5 {
            0
        } else {
            all.len() - 5
        };
        lemma_users_from(messages, k);
        lemma_turns(messages, messages.len(), k);
    }
}

proof fn lemma_shown_from(messages: Seq<Tree>, start: int, k: int, end: int, ui: Ui)
    requires
        start <= k < end,
    ensures
        shown_from(messages, start, end, ui) == shown_from(messages, start, k, ui) + shown_of(
            messages[k],
            ui,
        ) + shown_from(messages, k + 1, end, ui),
    decreases end - k,
{
    if end == k + 1 {
        assert(shown_from(messages, start, end, ui) =~= shown_from(messages, start, k, ui)
            + shown_of(messages[k], ui) + shown_from(messages, k + 1, end, ui));
    } else {
        lemma_shown_from(messages, start, k, end - 1, ui);
        assert(shown_from(messages, start, end, ui) =~= shown_from(messages, start, k, ui)
            + shown_of(messages[k], ui) + shown_from(messages, k + 1, end, ui));
    }
}

/// Every message from there on is shown, each once and in order: what is
/// shown of it stands behind that of all earlier ones and before that of all
/// later ones.
pub proof fn law_history_leaves_nothing_out(messages: Seq<Tree>, k: int, ui: Ui)
    requires
        recent_start(messages) is Some,
        recent_start(messages)->0 <= k < messages.len(),
        shown_of(messages[k], ui).len() > 0,
    ensures
        recent_of(messages, ui) == shown_from(messages, recent_start(messages)->0, k, ui)
            + shown_of(messages[k], ui) + shown_from(messages, k + 1, messages.len() as int, ui)
            + seq!['\n'],
        shown_from(messages, k, k, ui).len() == 0,
{
    let start = recent_start(messages)->0;
    lemma_shown_from(messages, start, k, messages.len() as int, ui);
    reveal_strlit("\n");
    assert("\n"@ =~= seq!['\n']);
}

/// What the user and the assistant said is shown whole, with who said it.
pub proof fn law_messages_are_shown_whole(message: Tree, ui: Ui)
    requires
        !ui.interactive,
        message.at("content"@).text() is Some,
        message.at("content"@).text()->0.len() > 0,
        message.says("role"@, "user"@) || message.says("role"@, "assistant"@),
    ensures
        shown_of(message, ui) == (if message.says("role"@, "user"@) {
            "you> "@
        } else {
            "assistant> "@
        }) + message.at("content"@).text()->0 + seq!['\n'],
{
    reveal_strlit("you");
    reveal_strlit("assistant");
    reveal_strlit("> ");
    reveal_strlit("you> ");
    reveal_strlit("assistant> ");
    reveal_strlit("\n");
    assert("you"@ + "> "@ =~= "you> "@);
    assert("assistant"@ + "> "@ =~= "assistant> "@);
    assert("\n"@ =~= seq!['\n']);
}

/// Every text of a message in parts is part of what is shown of it, in order
/// and separated by blanks.
pub proof fn law_parts_are_shown(parts: Seq<Tree>, part: Tree, text: Seq<char>)
    requires
        part.says("type"@, "text"@),
        part.says("text"@, text),
        text.len() > 0,
    ensures
        content_of(Tree::List(parts.push(part))) == Some(
            match content_of(Tree::List(parts)) {
                Some(before) => before + " "@ + text,
                None => if part_texts(parts, parts.len()).len() == 0 {
                    text
                } else {
                    " "@ + text
                },
            },
        ),
{
    let all = parts.push(part);
    lemma_part_texts(parts, part, parts.len());
    let rest = part_texts(parts, parts.len());
    assert(part_texts(all, all.len()) == rest.push(text));
    assert(rest.push(text).drop_last() =~= rest);
    if rest.len() == 0 {
        assert(rest.push(text)[0] == text);
        assert(join(rest, " "@).len() == 0);
    } else {
        assert(join(rest.push(text), " "@) =~= join(rest, " "@) + " "@ + text);
        if join(rest, " "@).len() == 0 {
            assert(join(rest.push(text), " "@) =~= " "@ + text);
        }
    }
}

proof fn lemma_part_texts(parts: Seq<Tree>, part: Tree, n: nat)
    requires
        n <= parts.len(),
    ensures
        part_texts(parts.push(part), n) == part_texts(parts, n),
    decreases n,
{
    if n > 0 {
        lemma_part_texts(parts, part, (n - 1) as nat);
    }
}

/// The sessions of a list are in the order of their age, the latest first;
/// of two that are as old, the one with the lesser path.
pub proof fn law_latest_sessions_come_first(sessions: Seq<SessionView>, i: int, j: int)
    requires
        ordered(sessions),
        0 <= i < j < sessions.len(),
    ensures
        sessions[i].modified >= sessions[j].modified,
        sessions[i].modified == sessions[j].modified ==> text_le(
            sessions[i].path,
            sessions[j].path,
        ),
{
}

/// A session is called what it was named last; where it has no name, what
/// the user said first.
pub proof fn law_sessions_are_called_by_name(i: InspectionView, record: Tree, name: Seq<char>)
    requires
        name.len() > 0,
    ensures
        record.says("type"@, "session_info"@) && record.says("name"@, name) && i.messages
            ==> i.noted(record).name() == Some(name),
        record.says("type"@, "message"@) ==> i.noted(record).messages && i.noted(record).title
            == i.title,
        i.title is None && i.first is None && record.says("type"@, "message"@) && record.at(
            "message"@,
        ).says("role"@, "user"@) && record.at("message"@).says("content"@, name) ==> i.noted(
            record,
        ).name() == Some(name),
        i.title is None && i.first == Some(name) && i.messages && !record.says(
            "type"@,
            "session_info"@,
        ) ==> i.noted(record).name() == Some(name),
{
    reveal_strlit("session_info");
    reveal_strlit("message");
    assert("session_info"@.len() == 12 && "message"@.len() == 7);
}

/// Each session has a row of its own in the list, with its number and its
/// title.
pub proof fn law_every_session_is_in_the_list(sessions: Seq<SessionView>, s: SessionView)
    requires
        sessions.len() > 0,
    ensures
        menu_of(sessions.push(s)) == menu_of(sessions) + "  "@ + decimal(sessions.len() + 1)
            + ". "@ + first_n(one_line(s.title), 80) + "\n"@,
        one_line(s.title).len() == s.title.len(),
        forall|i: int|
            0 <= i < s.title.len() && s.title[i] != '\r' && s.title[i] != '\n'
                ==> #[trigger] one_line(s.title)[i] == s.title[i],
{
    let n = sessions.len();
    lemma_menu_rows(sessions, s, n);
    assert(menu_of(sessions.push(s)) =~= menu_of(sessions) + "  "@ + decimal(n + 1) + ". "@
        + first_n(one_line(s.title), 80) + "\n"@);
}

proof fn lemma_menu_rows(sessions: Seq<SessionView>, s: SessionView, n: nat)
    requires
        n <= sessions.len(),
    ensures
        menu_rows(sessions.push(s), n) == menu_rows(sessions, n),
    decreases n,
{
    if n > 0 {
        lemma_menu_rows(sessions, s, (n - 1) as nat);
    }
}

/// The number of a row chooses the session of that row, with or without
/// blanks around it.
pub proof fn law_numbers_choose_their_row(line: Seq<char>, i: nat, count: nat)
    requires
        i < count <= usize::MAX,
        trim(line) == decimal(i + 1),
    ensures
        chosen(Some(line), count) == Ok::<Option<nat>, Seq<char>>(Some(i)),
        chosen(None, count) == Ok::<Option<nat>, Seq<char>>(None),
{
    crate::number::law_numbers_read_back(i + 1, usize::MAX as nat);
    crate::number::lemma_decimal(i + 1);
}

/// A path from the root stays as it is; any other is below the directory.
pub proof fn law_paths_are_below_the_directory(path: Seq<char>, cwd: Seq<char>)
    requires
        path.len() > 0,
    ensures
        path[0] == '/' ==> resolved(path, cwd) == path,
        path[0] != '/' && cwd.len() > 0 && cwd.last() != '/' ==> resolved(path, cwd) == cwd
            + seq!['/'] + path,
        path[0] != '/' && cwd.len() > 0 && cwd.last() == '/' ==> resolved(path, cwd) == cwd + path,
{
    reveal_strlit("/");
    assert("/"@ =~= seq!['/']);
    assert(path.subrange(0, 1) =~= seq![path[0]]);
    if path[0] != '/' {
        assert(seq![path[0]][0] != seq!['/'][0]);
    }
    if cwd.len() > 0 {
        let n = cwd.len() as int;
        assert(cwd.subrange(n - 1, n) =~= seq![cwd.last()]);
        if cwd.last() != '/' {
            assert(seq![cwd.last()][0] != seq!['/'][0]);
        }
    }
}

/// The name of a directory of sessions holds no separator; everything else of
/// the path is in it, in its place.
pub proof fn law_directory_names_hold_no_separator(path: Seq<char>, i: int)
    requires
        0 <= i < path.len(),
    ensures
        dashed(path).len() == path.len(),
        dashed(path)[i] != '/' && dashed(path)[i] != '\\' && dashed(path)[i] != ':',
        path[i] != '/' && path[i] != '\\' && path[i] != ':' ==> dashed(path)[i] == path[i],
        path[i] == '/' || path[i] == '\\' || path[i] == ':' ==> dashed(path)[i] == '-',
{
}

/// The directory that the settings name is used, taken from the working
/// directory; settings that cannot be read are an error.
pub proof fn law_settings_name_the_directory(data: Tree, dir: Seq<char>, cwd: Seq<char>)
    ensures
        data.says("sessionDir"@, dir) && dir.len() > 0 ==> settings_dir_of(Some(data), cwd) == Ok::<
            Option<Seq<char>>,
            Seq<char>,
        >(Some(resolved(dir, cwd))),
        data.text_at("sessionDir"@) is None ==> settings_dir_of(Some(data), cwd) == Ok::<
            Option<Seq<char>>,
            Seq<char>,
        >(None),
        settings_dir_of(None, cwd) is Err,
{
}

}
