//! Explicit clipboard image reads: which helper is asked, how much of its
//! output is taken, and what becomes of it.
use crate::base64::{base64, encoded};
use crate::json::{add_field, fields_view, object, text, Json, Tree};
use crate::lines::{lines, rows, split_lines};
use crate::text::{chars_of, same_chars, trim, trimmed};
use crate::utf8::{lossy, lossy_text};
use vstd::prelude::*;

verus! {

/// How large an image may be, in bytes.
pub const MAX_IMAGE: usize = 10_485_760;

/// How much a list of types may hold, in bytes.
pub const MAX_TYPES: usize = 8192;

/// How long a helper may take, in milliseconds.
pub const HELPER_TIMEOUT: u64 = 5000;

pub const UNAVAILABLE: &'static str = "Clipboard unavailable: use a local desktop (wl-paste/xclip on Linux)";

pub const NO_HELPER: &'static str = "Clipboard helper unavailable (macOS: osascript; WSL: powershell.exe; Linux: wl-paste/xclip)";

pub const NO_SUPPORTED_IMAGE: &'static str = "No supported image in clipboard";

pub const STOPPED: &'static str = "Clipboard helper stopped";

/// Linux within Windows.
pub fn is_wsl(linux: bool, distro: bool, interop: bool) -> (r: bool)
    ensures
        r == (linux && (distro || interop)),
{
    linux && (distro || interop)
}

pub open spec fn paste_key_of(wsl: bool) -> Seq<char> {
    if wsl {
        "Alt+V"@
    } else {
        "Ctrl+V"@
    }
}

/// The key that pastes an image.
pub fn paste_key(wsl: bool) -> (r: &'static str)
    ensures
        r@ == paste_key_of(wsl),
{
    if wsl {
        "Alt+V"
    } else {
        "Ctrl+V"
    }
}

pub open spec fn follow_up_key_of(wsl: bool) -> Seq<char> {
    if wsl {
        "Ctrl+Q"@
    } else {
        "Alt+Enter"@
    }
}

/// The key that queues a message for later.
pub fn follow_up_key(wsl: bool) -> (r: &'static str)
    ensures
        r@ == follow_up_key_of(wsl),
{
    if wsl {
        "Ctrl+Q"
    } else {
        "Alt+Enter"
    }
}

// ---------------------------------------------------------------------------
// Helpers
// ---------------------------------------------------------------------------

/// Where an image is read from.
#[derive(Clone, Copy, Debug, PartialEq, Eq, Structural)]
pub enum Source {
    MacOs,
    Windows,
    Wayland,
    X11,
}

/// The source for this machine. A Wayland session is never read through X11,
/// whose clipboard may be another one.
pub fn source(
    macos: bool,
    wsl: bool,
    wayland_display: bool,
    session_type: Option<&str>,
    display: bool,
) -> (r: Option<Source>)
    ensures
        r == if macos {
            Some(Source::MacOs)
        } else if wsl {
            Some(Source::Windows)
        } else if wayland_display || (session_type matches Some(kind) && kind@ == "wayland"@) {
            Some(Source::Wayland)
        } else if display {
            Some(Source::X11)
        } else {
            None
        },
{
    let wayland = match session_type {
        Some(kind) => crate::text::same(kind, "wayland"),
        None => false,
    };
    if macos {
        Some(Source::MacOs)
    } else if wsl {
        Some(Source::Windows)
    } else if wayland_display || wayland {
        Some(Source::Wayland)
    } else if display {
        Some(Source::X11)
    } else {
        None
    }
}

pub open spec fn listing_of(source: Source) -> Option<Seq<Seq<char>>> {
    match source {
        Source::MacOs => None,
        Source::Windows => None,
        Source::Wayland => Some(seq!["wl-paste"@, "--list-types"@]),
        Source::X11 => Some(
            seq!["xclip"@, "-selection"@, "clipboard"@, "-t"@, "TARGETS"@, "-o"@],
        ),
    }
}

/// The command that lists the types of what is in the clipboard, for a source
/// that has several.
pub fn listing(source: Source) -> (r: Option<Vec<&'static str>>)
    ensures
        match r {
            Some(words) => listing_of(source) == Some(words_view(words@)),
            None => listing_of(source) is None,
        },
{
    match source {
        Source::MacOs => None,
        Source::Windows => None,
        Source::Wayland => {
            let words: Vec<&'static str> = vec!["wl-paste", "--list-types"];
            assert(words_view(words@) =~= listing_of(source)->0);
            Some(words)
        },
        Source::X11 => {
            let words: Vec<&'static str> = vec![
                "xclip",
                "-selection",
                "clipboard",
                "-t",
                "TARGETS",
                "-o",
            ];
            assert(words_view(words@) =~= listing_of(source)->0);
            Some(words)
        },
    }
}

pub open spec fn words_view(words: Seq<&'static str>) -> Seq<Seq<char>> {
    Seq::new(words.len(), |i: int| words[i]@)
}

pub open spec fn reading_of(source: Source, mime: Seq<char>) -> Option<Seq<Seq<char>>> {
    match source {
        Source::MacOs => None,
        Source::Windows => None,
        Source::Wayland => Some(seq!["wl-paste"@, "--type"@, mime, "--no-newline"@]),
        Source::X11 => Some(seq!["xclip"@, "-selection"@, "clipboard"@, "-t"@, mime, "-o"@]),
    }
}

/// The command that reads an image of a type, for a source that has several.
pub fn reading(source: Source, mime: &'static str) -> (r: Option<Vec<&'static str>>)
    ensures
        match r {
            Some(words) => reading_of(source, mime@) == Some(words_view(words@)),
            None => reading_of(source, mime@) is None,
        },
{
    match source {
        Source::MacOs => None,
        Source::Windows => None,
        Source::Wayland => {
            let words: Vec<&'static str> = vec!["wl-paste", "--type", mime, "--no-newline"];
            assert(words_view(words@) =~= reading_of(source, mime@)->0);
            Some(words)
        },
        Source::X11 => {
            let words: Vec<&'static str> = vec!["xclip", "-selection", "clipboard", "-t", mime, "-o"];
            assert(words_view(words@) =~= reading_of(source, mime@)->0);
            Some(words)
        },
    }
}

/// One of the lines, from `i` on, is the type `mime`.
pub open spec fn lists_from(ls: Seq<Seq<char>>, mime: Seq<char>, i: int) -> bool
    decreases ls.len() - i,
{
    if i < 0 || i >= ls.len() {
        false
    } else {
        trim(ls[i]) == mime || lists_from(ls, mime, i + 1)
    }
}

pub open spec fn preferred_of(types: Seq<u8>) -> Option<Seq<char>> {
    let ls = lines(lossy(types));
    if lists_from(ls, "image/png"@, 0) {
        Some("image/png"@)
    } else if lists_from(ls, "image/jpeg"@, 0) {
        Some("image/jpeg"@)
    } else if lists_from(ls, "image/webp"@, 0) {
        Some("image/webp"@)
    } else if lists_from(ls, "image/gif"@, 0) {
        Some("image/gif"@)
    } else {
        None
    }
}

fn lists(ls: &Vec<Vec<char>>, mime: &str) -> (r: bool)
    ensures
        r == lists_from(rows(ls@), mime@, 0),
{
    let wanted = chars_of(mime);
    let ghost all = rows(ls@);
    let mut i: usize = 0;
    while i < ls.len()
        invariant
            i <= ls@.len(),
            all == rows(ls@),
            wanted@ == mime@,
            lists_from(all, mime@, 0) == lists_from(all, mime@, i as int),
        decreases ls@.len() - i,
    {
        if same_chars(trimmed(ls[i].as_slice()), wanted.as_slice()) {
            return true;
        }
        i = i + 1;
    }
    false
}

/// The type to ask for, of those that are listed.
pub fn preferred_type(types: &[u8]) -> (r: Option<&'static str>)
    ensures
        match r {
            Some(mime) => preferred_of(types@) == Some(mime@),
            None => preferred_of(types@) is None,
        },
{
    let all = lossy_text(types);
    let chars = chars_of(all.as_str());
    let ls = split_lines(chars.as_slice());
    if lists(&ls, "image/png") {
        Some("image/png")
    } else if lists(&ls, "image/jpeg") {
        Some("image/jpeg")
    } else if lists(&ls, "image/webp") {
        Some("image/webp")
    } else if lists(&ls, "image/gif") {
        Some("image/gif")
    } else {
        None
    }
}

// ---------------------------------------------------------------------------
// Images
// ---------------------------------------------------------------------------

pub open spec fn begins(bytes: Seq<u8>, p: Seq<u8>) -> bool {
    bytes.len() >= p.len() && bytes.take(p.len() as int) == p
}

fn begins_with(bytes: &[u8], p: &[u8]) -> (r: bool)
    ensures
        r == begins(bytes@, p@),
{
    let n: usize = p.len();
    if bytes.len() < n {
        return false;
    }
    let mut i: usize = 0;
    while i < n
        invariant
            i <= n,
            n == p@.len(),
            n <= bytes@.len(),
            forall|j: int| 0 <= j < i ==> bytes@[j] == p@[j],
        decreases n - i,
    {
        if bytes[i] != p[i] {
            assert(bytes@.take(n as int)[i as int] != p@[i as int]);
            return false;
        }
        i = i + 1;
    }
    assert(bytes@.take(n as int) =~= p@);
    true
}

/// The type of an image, by its first bytes.
pub open spec fn mime_of(bytes: Seq<u8>) -> Option<Seq<char>> {
    if begins(bytes, seq![0x89u8, 0x50, 0x4e, 0x47, 0x0d, 0x0a, 0x1a, 0x0a]) {
        Some("image/png"@)
    } else if begins(bytes, seq![0xffu8, 0xd8, 0xff]) {
        Some("image/jpeg"@)
    } else if begins(bytes, seq![0x47u8, 0x49, 0x46, 0x38, 0x37, 0x61]) || begins(
        bytes,
        seq![0x47u8, 0x49, 0x46, 0x38, 0x39, 0x61],
    ) {
        Some("image/gif"@)
    } else if begins(bytes, seq![0x52u8, 0x49, 0x46, 0x46]) && bytes.len() >= 12 && bytes.subrange(
        8,
        12,
    ) == seq![0x57u8, 0x45, 0x42, 0x50] {
        Some("image/webp"@)
    } else {
        None
    }
}

fn image_type(bytes: &[u8]) -> (r: Option<&'static str>)
    ensures
        match r {
            Some(mime) => mime_of(bytes@) == Some(mime@),
            None => mime_of(bytes@) is None,
        },
{
    let png: Vec<u8> = vec![0x89, 0x50, 0x4e, 0x47, 0x0d, 0x0a, 0x1a, 0x0a];
    assert(png@ =~= seq![0x89u8, 0x50, 0x4e, 0x47, 0x0d, 0x0a, 0x1a, 0x0a]);
    if begins_with(bytes, png.as_slice()) {
        return Some("image/png");
    }
    let jpeg: Vec<u8> = vec![0xff, 0xd8, 0xff];
    assert(jpeg@ =~= seq![0xffu8, 0xd8, 0xff]);
    if begins_with(bytes, jpeg.as_slice()) {
        return Some("image/jpeg");
    }
    let old_gif: Vec<u8> = vec![0x47, 0x49, 0x46, 0x38, 0x37, 0x61];
    assert(old_gif@ =~= seq![0x47u8, 0x49, 0x46, 0x38, 0x37, 0x61]);
    let gif: Vec<u8> = vec![0x47, 0x49, 0x46, 0x38, 0x39, 0x61];
    assert(gif@ =~= seq![0x47u8, 0x49, 0x46, 0x38, 0x39, 0x61]);
    if begins_with(bytes, old_gif.as_slice()) || begins_with(bytes, gif.as_slice()) {
        return Some("image/gif");
    }
    let riff: Vec<u8> = vec![0x52, 0x49, 0x46, 0x46];
    assert(riff@ =~= seq![0x52u8, 0x49, 0x46, 0x46]);
    if begins_with(bytes, riff.as_slice()) && bytes.len() >= 12 && bytes[8] == 0x57 && bytes[9]
        == 0x45 && bytes[10] == 0x42 && bytes[11] == 0x50 {
        assert(bytes@.subrange(8, 12) =~= seq![0x57u8, 0x45, 0x42, 0x50]);
        return Some("image/webp");
    }
    proof {
        let webp = seq![0x57u8, 0x45, 0x42, 0x50];
        if bytes@.len() >= 12 && bytes@.subrange(8, 12) == webp {
            assert(bytes@.subrange(8, 12)[0] == bytes@[8]);
            assert(bytes@.subrange(8, 12)[1] == bytes@[9]);
            assert(bytes@.subrange(8, 12)[2] == bytes@[10]);
            assert(bytes@.subrange(8, 12)[3] == bytes@[11]);
        }
    }
    None
}

/// An attachment for an image.
pub open spec fn image_block(mime: Seq<char>, bytes: Seq<u8>) -> Tree {
    Tree::Object(
        seq![
            ("type"@, Tree::Text("image"@)),
            ("mimeType"@, Tree::Text(mime)),
            ("data"@, Tree::Text(encoded(bytes))),
        ],
    )
}

/// The attachment for what the clipboard holds, or why there is none.
pub open spec fn image_of(bytes: Seq<u8>) -> Result<Tree, Seq<char>> {
    if bytes.len() == 0 {
        Err("No image in clipboard"@)
    } else if bytes.len() > MAX_IMAGE {
        Err("Clipboard image exceeds 10 MiB"@)
    } else {
        match mime_of(bytes) {
            Some(mime) => Ok(image_block(mime, bytes)),
            None => Err("Clipboard does not contain a PNG, JPEG, GIF, or WebP image"@),
        }
    }
}

pub fn image_content(bytes: &[u8]) -> (r: Result<Json, &'static str>)
    ensures
        match r {
            Ok(image) => image_of(bytes@) == Ok::<Tree, Seq<char>>(image@),
            Err(message) => image_of(bytes@) == Err::<Tree, Seq<char>>(message@),
        },
{
    if bytes.len() == 0 {
        return Err("No image in clipboard");
    }
    if bytes.len() > MAX_IMAGE {
        return Err("Clipboard image exceeds 10 MiB");
    }
    match image_type(bytes) {
        None => Err("Clipboard does not contain a PNG, JPEG, GIF, or WebP image"),
        Some(mime) => {
            let mut fields: Vec<(String, Json)> = Vec::new();
            assert(fields_view(fields@) =~= Seq::empty());
            add_field(&mut fields, "type", text("image"));
            add_field(&mut fields, "mimeType", text(mime));
            add_field(&mut fields, "data", Json::Text(base64(bytes)));
            assert(fields_view(fields@) =~= image_block(mime@, bytes@)->Object_0);
            Ok(object(fields))
        },
    }
}

// ---------------------------------------------------------------------------
// Output of a helper
// ---------------------------------------------------------------------------

/// What a read of a helper's output gave.
pub enum Read<'a> {
    End,
    Data(&'a [u8]),
    /// Nothing is there yet.
    Blocked,
    Interrupted,
    Failed,
}

/// What to do next with a helper.
#[derive(Clone, Copy, Debug, PartialEq, Eq)]
pub enum CaptureStep {
    /// Read on at once.
    Again,
    /// Pause, then read on.
    Wait,
    /// See whether the helper has exited.
    Check,
    Failed(&'static str),
}

/// The output of a helper so far.
pub struct Capture {
    pub bytes: Vec<u8>,
    pub eof: bool,
}

/// Why a read is given up, where it is.
pub fn gives_up(cancelled: bool, now: u64, deadline: u64) -> (r: Option<&'static str>)
    ensures
        match r {
            Some(message) => message@ == if cancelled {
                "Clipboard read cancelled"@
            } else {
                "Clipboard read timed out"@
            } && (cancelled || now >= deadline),
            None => !cancelled && now < deadline,
        },
{
    if cancelled {
        Some("Clipboard read cancelled")
    } else if now >= deadline {
        Some("Clipboard read timed out")
    } else {
        None
    }
}

impl Capture {
    pub fn new() -> (r: Self)
        ensures
            r.bytes@ == Seq::<u8>::empty(),
            !r.eof,
    {
        Capture { bytes: Vec::new(), eof: false }
    }

    /// A read of the output gave `read`.
    pub fn on_read(&mut self, read: Read<'_>, limit: usize) -> (r: CaptureStep)
        requires
            old(self).bytes@.len() <= limit,
        ensures
            final(self).bytes@.len() <= limit,
            final(self).bytes@ == old(self).bytes@ + (match read {
                Read::Data(more) => if old(self).bytes@.len() + more@.len() > limit {
                    Seq::empty()
                } else {
                    more@
                },
                _ => Seq::empty(),
            }),
            final(self).eof == (old(self).eof || read is End),
            match read {
                Read::End => r == CaptureStep::Check,
                Read::Data(more) => if old(self).bytes@.len() + more@.len() > limit {
                    r is Failed && r->Failed_0@
                        == "Clipboard image/output exceeds size limit (10 MiB per image)"@
                } else {
                    r == CaptureStep::Again
                },
                Read::Blocked => r == if old(self).eof {
                    CaptureStep::Check
                } else {
                    CaptureStep::Wait
                },
                Read::Interrupted => r == CaptureStep::Again,
                Read::Failed => r is Failed && r->Failed_0@ == "Clipboard read failed"@,
            },
    {
        match read {
            Read::End => {
                self.eof = true;
                assert(self.bytes@ =~= old(self).bytes@ + Seq::<u8>::empty());
                CaptureStep::Check
            },
            Read::Data(more) => {
                let n: usize = more.len();
                if n > limit - self.bytes.len() {
                    assert(self.bytes@ =~= old(self).bytes@ + Seq::<u8>::empty());
                    return CaptureStep::Failed(
                        "Clipboard image/output exceeds size limit (10 MiB per image)",
                    );
                }
                crate::transcript::extend_bytes(&mut self.bytes, more);
                CaptureStep::Again
            },
            Read::Blocked => {
                assert(self.bytes@ =~= old(self).bytes@ + Seq::<u8>::empty());
                if self.eof {
                    CaptureStep::Check
                } else {
                    CaptureStep::Wait
                }
            },
            Read::Interrupted => {
                assert(self.bytes@ =~= old(self).bytes@ + Seq::<u8>::empty());
                CaptureStep::Again
            },
            Read::Failed => {
                assert(self.bytes@ =~= old(self).bytes@ + Seq::<u8>::empty());
                CaptureStep::Failed("Clipboard read failed")
            },
        }
    }

    /// Whether the helper has exited with success: its output, or why there is
    /// none. Nothing, while it has not exited.
    pub fn on_status(self, status: Option<bool>) -> (r: Option<Result<Vec<u8>, &'static str>>)
        ensures
            match status {
                None => r is None,
                Some(true) => r == Some(Ok::<Vec<u8>, &'static str>(self.bytes)),
                Some(false) => r is Some && r->0 is Err && r->0->Err_0@
                    == "Clipboard helper failed or no image is available"@,
            },
    {
        match status {
            None => None,
            Some(success) => if success {
                Some(Ok(self.bytes))
            } else {
                Some(Err("Clipboard helper failed or no image is available"))
            },
        }
    }
}

// ---------------------------------------------------------------------------
// Laws
// ---------------------------------------------------------------------------

/// An attachment holds the image, the whole of it, as its type says and not
/// as raw bytes.
pub proof fn law_attachments_hold_the_image(bytes: Seq<u8>)
    requires
        image_of(bytes) is Ok,
    ensures
        ({
            let image = image_of(bytes)->Ok_0;
            &&& image.says("type"@, "image"@)
            &&& mime_of(bytes) matches Some(mime) && image.says("mimeType"@, mime)
            &&& image.text_at("data"@) matches Some(data) && crate::base64::decoded(data) == bytes
        }),
{
    reveal_with_fuel(crate::json::entry, 4);
    reveal_strlit("type");
    reveal_strlit("mimeType");
    reveal_strlit("data");
    assert("type"@[0] != "data"@[0]);
    assert("type"@.len() != "mimeType"@.len());
    assert("data"@.len() != "mimeType"@.len());
    crate::base64::law_encoding_can_be_undone(bytes);
    let mime = mime_of(bytes)->0;
    let fields = image_block(mime, bytes)->Object_0;
    assert(fields.skip(1)[0] == fields[1]);
    assert(fields.skip(1).skip(1)[0] == fields[2]);
}

/// What is no image of a known type, or too large, is never attached.
pub proof fn law_only_known_images_are_attached(bytes: Seq<u8>)
    ensures
        image_of(bytes) is Ok <==> 0 < bytes.len() <= MAX_IMAGE && mime_of(bytes) is Some,
{
}

proof fn lemma_lists(ls: Seq<Seq<char>>, mime: Seq<char>, i: int)
    requires
        0 <= i <= ls.len(),
    ensures
        lists_from(ls, mime, i) <==> exists|k: int|
            i <= k < ls.len() && trim(#[trigger] ls[k]) == mime,
    decreases ls.len() - i,
{
    if i < ls.len() {
        lemma_lists(ls, mime, i + 1);
        if trim(ls[i]) == mime {
            assert(i <= i < ls.len());
        }
    }
}

/// A clipboard lists a type.
pub open spec fn listed(types: Seq<u8>, mime: Seq<char>) -> bool {
    exists|k: int| 0 <= k < lines(lossy(types)).len() && trim(#[trigger] lines(lossy(types))[k])
        == mime
}

/// What is read is an image that the clipboard lists: a PNG before a JPEG,
/// that before a WebP, and that before a GIF; and something is read wherever
/// one of them is listed.
pub proof fn law_listed_images_are_read(types: Seq<u8>)
    ensures
        preferred_of(types) matches Some(mime) ==> listed(types, mime),
        listed(types, "image/png"@) ==> preferred_of(types) == Some("image/png"@),
        !listed(types, "image/png"@) && listed(types, "image/jpeg"@) ==> preferred_of(types)
            == Some("image/jpeg"@),
        preferred_of(types) is None <==> !listed(types, "image/png"@) && !listed(
            types,
            "image/jpeg"@,
        ) && !listed(types, "image/webp"@) && !listed(types, "image/gif"@),
{
    let ls = lines(lossy(types));
    lemma_lists(ls, "image/png"@, 0);
    lemma_lists(ls, "image/jpeg"@, 0);
    lemma_lists(ls, "image/webp"@, 0);
    lemma_lists(ls, "image/gif"@, 0);
}

/// The type of an image is told by its first bytes.
pub proof fn law_images_are_told_by_their_beginning(rest: Seq<u8>)
    ensures
        mime_of(seq![0x89u8, 0x50, 0x4e, 0x47, 0x0d, 0x0a, 0x1a, 0x0a] + rest) == Some(
            "image/png"@,
        ),
        mime_of(seq![0xffu8, 0xd8, 0xff] + rest) == Some("image/jpeg"@),
        mime_of(seq![0x47u8, 0x49, 0x46, 0x38, 0x39, 0x61] + rest) == Some("image/gif"@),
{
    let png = seq![0x89u8, 0x50, 0x4e, 0x47, 0x0d, 0x0a, 0x1a, 0x0a];
    let jpeg = seq![0xffu8, 0xd8, 0xff];
    let gif = seq![0x47u8, 0x49, 0x46, 0x38, 0x39, 0x61];
    assert((png + rest).take(8) =~= png);
    assert((jpeg + rest).take(3) =~= jpeg);
    assert((gif + rest).take(6) =~= gif);
    assert(!begins(jpeg + rest, png)) by {
        if begins(jpeg + rest, png) {
            assert((jpeg + rest).take(8)[0] == 0x89u8);
        }
    }
    assert(!begins(gif + rest, png)) by {
        if begins(gif + rest, png) {
            assert((gif + rest).take(8)[0] == 0x89u8);
        }
    }
    assert(!begins(gif + rest, jpeg)) by {
        if begins(gif + rest, jpeg) {
            assert((gif + rest).take(3)[0] == 0xffu8);
        }
    }
}

}
