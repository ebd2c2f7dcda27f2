//! Base64, with the standard alphabet and padding.
use vstd::prelude::*;

verus! {

/// The character of a group of six bits.
pub open spec fn code(n: int) -> char {
    if n < 26 {
        (n + 65) as char
    } else if n < 52 {
        (n + 71) as char
    } else if n < 62 {
        (n - 4) as char
    } else if n == 62 {
        '+'
    } else {
        '/'
    }
}

/// The characters of up to three bytes.
pub open spec fn group(part: Seq<u8>) -> Seq<char> {
    let a = part[0] as int;
    let b = if part.len() > 1 {
        part[1] as int
    } else {
        0
    };
    let c = if part.len() > 2 {
        part[2] as int
    } else {
        0
    };
    seq![
        code(a / 4),
        code((a % 4) * 16 + b / 16),
        if part.len() > 1 {
            code((b % 16) * 4 + c / 64)
        } else {
            '='
        },
        if part.len() > 2 {
            code(c % 64)
        } else {
            '='
        },
    ]
}

/// The text for some bytes.
pub open spec fn encoded(bytes: Seq<u8>) -> Seq<char>
    decreases bytes.len(),
{
    if bytes.len() == 0 {
        Seq::empty()
    } else if bytes.len() <= 3 {
        group(bytes)
    } else {
        group(bytes.take(3)) + encoded(bytes.skip(3))
    }
}

fn code_of(n: u8) -> (c: char)
    requires
        n < 64,
    ensures
        c == code(n as int),
{
    if n < 26 {
        (n + 65) as char
    } else if n < 52 {
        (n + 71) as char
    } else if n < 62 {
        (n - 4) as char
    } else if n == 62 {
        '+'
    } else {
        '/'
    }
}

pub fn base64(bytes: &[u8]) -> (out: String)
    ensures
        out@ == encoded(bytes@),
{
    let mut out = String::new();
    let n: usize = bytes.len();
    let mut i: usize = 0;
    assert(bytes@.skip(0) =~= bytes@);
    assert(out@ =~= Seq::empty());
    while i < n
        invariant
            i <= n,
            n == bytes@.len(),
            encoded(bytes@) =~= out@ + encoded(bytes@.skip(i as int)),
        decreases n - i,
    {
        let ghost rest = bytes@.skip(i as int);
        let ghost start = out@;
        let left: usize = n - i;
        let a = bytes[i];
        let b: u8 = if left > 1 {
            bytes[i + 1]
        } else {
            0
        };
        let c: u8 = if left > 2 {
            bytes[i + 2]
        } else {
            0
        };
        out.push(code_of(a / 4));
        out.push(code_of((a % 4) * 16 + b / 16));
        out.push(
            if left > 1 {
                code_of((b % 16) * 4 + c / 64)
            } else {
                '='
            },
        );
        out.push(
            if left > 2 {
                code_of(c % 64)
            } else {
                '='
            },
        );
        proof {
            if left <= 3 {
                assert(out@ =~= start + group(rest));
            } else {
                assert(out@ =~= start + group(rest.take(3)));
                assert(rest.skip(3) =~= bytes@.skip(i + 3));
            }
        }
        i = if left > 3 {
            i + 3
        } else {
            n
        };
        assert(left <= 3 ==> bytes@.skip(i as int) =~= Seq::empty());
    }
    assert(bytes@.skip(i as int) =~= Seq::empty());
    out
}

// ---------------------------------------------------------------------------
// Laws
// ---------------------------------------------------------------------------

/// The six bits of a character.
pub open spec fn bits(c: char) -> int {
    let n = c as int;
    if 65 <= n <= 90 {
        n - 65
    } else if 97 <= n <= 122 {
        n - 71
    } else if 48 <= n <= 57 {
        n + 4
    } else if c == '+' {
        62
    } else {
        63
    }
}

/// The bytes of four characters.
pub open spec fn ungroup(s: Seq<char>) -> Seq<u8> {
    let a = (bits(s[0]) * 4 + bits(s[1]) / 16) as u8;
    let b = ((bits(s[1]) % 16) * 16 + bits(s[2]) / 4) as u8;
    let c = ((bits(s[2]) % 4) * 64 + bits(s[3])) as u8;
    if s[2] == '=' {
        seq![a]
    } else if s[3] == '=' {
        seq![a, b]
    } else {
        seq![a, b, c]
    }
}

/// The bytes of a text.
pub open spec fn decoded(s: Seq<char>) -> Seq<u8>
    decreases s.len(),
{
    if s.len() < 4 {
        Seq::empty()
    } else {
        ungroup(s) + decoded(s.skip(4))
    }
}

proof fn lemma_bits(n: int)
    requires
        0 <= n < 64,
    ensures
        bits(code(n)) == n,
        code(n) != '=',
{
}

proof fn lemma_ungroup(part: Seq<u8>, rest: Seq<char>)
    requires
        1 <= part.len() <= 3,
    ensures
        ungroup(group(part) + rest) == part,
{
    let a = part[0] as int;
    let b = if part.len() > 1 {
        part[1] as int
    } else {
        0
    };
    let c = if part.len() > 2 {
        part[2] as int
    } else {
        0
    };
    lemma_bits(a / 4);
    lemma_bits((a % 4) * 16 + b / 16);
    lemma_bits((b % 16) * 4 + c / 64);
    lemma_bits(c % 64);
    let s = group(part) + rest;
    assert(s[0] == group(part)[0]);
    assert(s[1] == group(part)[1]);
    assert(s[2] == group(part)[2]);
    assert(s[3] == group(part)[3]);
    assert(ungroup(s) =~= part);
}

/// Decoding what was encoded gives the bytes back.
pub proof fn law_encoding_can_be_undone(bytes: Seq<u8>)
    ensures
        decoded(encoded(bytes)) == bytes,
    decreases bytes.len(),
{
    if bytes.len() == 0 {
        assert(decoded(encoded(bytes)) =~= bytes);
    } else if bytes.len() <= 3 {
        lemma_ungroup(bytes, Seq::empty());
        let s = encoded(bytes);
        assert(s + Seq::<char>::empty() =~= s);
        assert(s.skip(4) =~= Seq::empty());
        assert(decoded(s.skip(4)) =~= Seq::empty());
        assert(decoded(s) =~= bytes);
    } else {
        law_encoding_can_be_undone(bytes.skip(3));
        lemma_ungroup(bytes.take(3), encoded(bytes.skip(3)));
        let s = encoded(bytes);
        assert(s.skip(4) =~= encoded(bytes.skip(3)));
        assert(bytes =~= bytes.take(3) + bytes.skip(3));
    }
}

}
