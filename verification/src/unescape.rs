//! Backslash escapes in a replacement template.

use vstd::prelude::*;

verus! {

/// The byte that a backslash followed by `code` stands for, for the codes
/// that are known: `n` (line feed), `r` (carriage return), `t` (tab),
/// `0` (zero byte), `b` (backspace), `f` (form feed), and the backslash and
/// the two quotes for themselves.
pub open spec fn escape_value(code: u8) -> Option<u8> {
    if code == 0x6e {
        Some(0x0au8)
    } else if code == 0x72 {
        Some(0x0du8)
    } else if code == 0x74 {
        Some(0x09u8)
    } else if code == 0x30 {
        Some(0x00u8)
    } else if code == 0x62 {
        Some(0x08u8)
    } else if code == 0x66 {
        Some(0x0cu8)
    } else if code == 0x5c || code == 0x27 || code == 0x22 {
        Some(code)
    } else {
        None
    }
}

/// The text from offset `i` on with every escape replaced by the byte it
/// stands for; `None` if a backslash there is followed by an unknown code or
/// by nothing.
pub open spec fn unescaped_from(text: Seq<u8>, i: int) -> Option<Seq<u8>>
    decreases text.len() - i,
{
    if i < 0 || i >= text.len() {
        Some(Seq::empty())
    } else if text[i] != 0x5c {
        match unescaped_from(text, i + 1) {
            Some(rest) => Some(seq![text[i]] + rest),
            None => None,
        }
    } else if i + 1 >= text.len() {
        None
    } else {
        match (escape_value(text[i + 1]), unescaped_from(text, i + 2)) {
            (Some(b), Some(rest)) => Some(seq![b] + rest),
            _ => None,
        }
    }
}

/// The whole text with its escapes expanded, if it is well formed.
pub open spec fn unescaped(text: Seq<u8>) -> Option<Seq<u8>> {
    unescaped_from(text, 0)
}

/// `head` in front of `tail`, if there is a tail.
pub open spec fn joined(head: Seq<u8>, tail: Option<Seq<u8>>) -> Option<Seq<u8>> {
    match tail {
        Some(rest) => Some(head + rest),
        None => None,
    }
}

/// The byte that an escape code stands for.
pub fn escape_code(code: u8) -> (value: Option<u8>)
    ensures
        value == escape_value(code),
{
    if code == 0x6e {
        Some(0x0a)
    } else if code == 0x72 {
        Some(0x0d)
    } else if code == 0x74 {
        Some(0x09)
    } else if code == 0x30 {
        Some(0x00)
    } else if code == 0x62 {
        Some(0x08)
    } else if code == 0x66 {
        Some(0x0c)
    } else if code == 0x5c || code == 0x27 || code == 0x22 {
        Some(code)
    } else {
        None
    }
}

/// Expands the backslash escapes in `text`. A text that ends in a lone
/// backslash, or holds a backslash before an unknown code, is not well
/// formed and gives `None`.
pub fn unescape(text: &[u8]) -> (out: Option<Vec<u8>>)
    ensures
        match out {
            Some(bytes) => unescaped(text@) == Some(bytes@),
            None => unescaped(text@) is None,
        },
{
    let mut out: Vec<u8> = Vec::with_capacity(text.len());
    let mut i: usize = 0;
    while i < text.len()
        invariant
            i <= text@.len(),
            unescaped(text@) == joined(out@, unescaped_from(text@, i as int)),
        decreases text@.len() - i,
    {
        let ghost before = out@;
        let b = text[i];
        if b != 0x5c {
            out.push(b);
            proof {
                match unescaped_from(text@, i + 1) {
                    Some(rest) => {
                        assert(before + (seq![b] + rest) =~= out@ + rest);
                    },
                    None => {},
                }
            }
            i += 1;
        } else if text.len() - i <= 1 {
            return None;
        } else {
            match escape_code(text[i + 1]) {
                Some(value) => {
                    out.push(value);
                    proof {
                        match unescaped_from(text@, i + 2) {
                            Some(rest) => {
                                assert(before + (seq![value] + rest) =~= out@ + rest);
                            },
                            None => {},
                        }
                    }
                    i += 2;
                },
                None => {
                    return None;
                },
            }
        }
    }
    assert(out@ + Seq::<u8>::empty() =~= out@);
    Some(out)
}

} // verus!
