//! Text that arrives byte by byte.
use vstd::prelude::*;
use vstd::utf8::{
    decode_utf8, encode_utf8, encode_utf8_decode_utf8, encode_utf8_first_scalar,
    encode_utf8_valid_utf8, valid_utf8,
};

verus! {

/// What some bytes are as text.
pub enum Piece {
    Text(String),
    /// The beginning of a text; more bytes may complete it.
    Partial,
    /// No text, whatever follows.
    Broken,
}

/// More bytes can make a text of `bytes`.
pub open spec fn completes(bytes: Seq<u8>) -> bool {
    exists|rest: Seq<u8>| valid_utf8(#[trigger] (bytes + rest))
}

/// `std::str::from_utf8` reads bytes as UTF-8. Where it refuses them, its
/// error tells bytes that end within a character from bytes that no other
/// bytes complete.
#[verifier::external_body]
pub(crate) fn piece(bytes: &[u8]) -> (r: Piece)
    ensures
        match r {
            Piece::Text(text) => valid_utf8(bytes@) && text@ == decode_utf8(bytes@),
            Piece::Partial => !valid_utf8(bytes@) && completes(bytes@),
            Piece::Broken => !valid_utf8(bytes@) && !completes(bytes@),
        },
{
    match std::str::from_utf8(bytes) {
        Ok(text) => Piece::Text(text.to_owned()),
        Err(error) => match error.error_len() {
            None => Piece::Partial,
            Some(_) => Piece::Broken,
        },
    }
}

/// The text that `String::from_utf8_lossy` makes of bytes.
pub uninterp spec fn lossy(bytes: Seq<u8>) -> Seq<char>;

/// `String::from_utf8_lossy` reads bytes as UTF-8; where they are valid, the
/// text is what they encode, and otherwise it holds the replacement character
/// where they are not. How many such characters there are is left unsaid.
#[verifier::external_body]
pub(crate) fn lossy_text(bytes: &[u8]) -> (out: String)
    ensures
        out@ == lossy(bytes@),
        valid_utf8(bytes@) ==> out@ == decode_utf8(bytes@),
        !valid_utf8(bytes@) ==> out@.contains('\u{fffd}'),
{
    String::from_utf8_lossy(bytes).into_owned()
}

/// The bytes that are left of `pending` after one more, and the text that
/// they made up.
pub open spec fn pushed(pending: Seq<u8>, byte: u8) -> (Seq<u8>, Seq<char>) {
    let bytes = pending.push(byte);
    if valid_utf8(bytes) {
        (Seq::empty(), decode_utf8(bytes))
    } else if completes(bytes) {
        (bytes, Seq::empty())
    } else {
        (Seq::empty(), Seq::empty())
    }
}

/// Take one more byte of a text. The text that is complete with it; bytes
/// that cannot become text are dropped.
pub fn push_byte(pending: &mut Vec<u8>, byte: u8) -> (out: String)
    ensures
        (final(pending)@, out@) == pushed(old(pending)@, byte),
{
    pending.push(byte);
    match piece(pending.as_slice()) {
        Piece::Text(text) => {
            pending.clear();
            assert(pending@ =~= Seq::empty());
            text
        },
        Piece::Partial => {
            let out = String::new();
            assert(out@ =~= Seq::empty());
            out
        },
        Piece::Broken => {
            pending.clear();
            let out = String::new();
            assert(out@ =~= Seq::empty());
            assert(pending@ =~= Seq::empty());
            out
        },
    }
}

/// The bytes of a character wait until the last of them has come; then they
/// are that character.
pub proof fn law_characters_arrive_whole(c: char, k: int)
    requires
        0 <= k < encode_utf8(seq![c]).len(),
    ensures
        ({
            let bytes = encode_utf8(seq![c]);
            pushed(bytes.take(k), bytes[k]) == if k + 1 < bytes.len() {
                (bytes.take(k + 1), Seq::<char>::empty())
            } else {
                (Seq::<u8>::empty(), seq![c])
            }
        }),
{
    let bytes = encode_utf8(seq![c]);
    encode_utf8_valid_utf8(seq![c]);
    encode_utf8_decode_utf8(seq![c]);
    encode_utf8_first_scalar(seq![c]);
    assert(seq![c].drop_first() =~= Seq::<char>::empty());
    assert(encode_utf8(seq![c].drop_first()) =~= Seq::<u8>::empty());
    let head = bytes.take(k + 1);
    assert(bytes.take(k).push(bytes[k]) =~= head);
    if k + 1 < bytes.len() {
        assert(head[0] == bytes[0]);
        assert(!valid_utf8(head));
        assert(head + bytes.skip(k + 1) =~= bytes);
        assert(completes(head));
    } else {
        assert(head =~= bytes);
    }
}

}
