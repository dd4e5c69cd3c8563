//! Text/binary classification.
//!
//! A file is classified by inspecting only a bounded prefix of its bytes:
//! empty data is text; otherwise the prefix is text exactly when it holds no
//! NUL byte and is valid UTF-8. Validity is checked against the exact bytes
//! handed in, never against a zero-padded buffer.
use vstd::prelude::*;
use vstd::utf8::*;

verus! {

/// Number of leading bytes that classification inspects.
pub const SNIFF_LEN: usize = 4096;

/// The bounded window of `bytes` that classification looks at: the whole
/// sequence when it is short, else its first `SNIFF_LEN` bytes.
pub open spec fn sniff_window(bytes: Seq<u8>) -> Seq<u8> {
    if bytes.len() <= SNIFF_LEN {
        bytes
    } else {
        bytes.take(SNIFF_LEN as int)
    }
}

/// True when some byte of `bytes` is NUL.
pub open spec fn has_nul(bytes: Seq<u8>) -> bool {
    exists|i: int| 0 <= i < bytes.len() && bytes[i] == 0u8
}

/// Classification of a byte window: empty data is text; otherwise the data
/// is text exactly when it holds no NUL byte and is valid UTF-8.
pub open spec fn is_text(bytes: Seq<u8>) -> bool {
    bytes.len() == 0 || (!has_nul(bytes) && valid_utf8(bytes))
}

/// True when no byte of the slice is NUL.
fn contains_nul(bytes: &[u8]) -> (r: bool)
    ensures
        r == has_nul(bytes@),
{
    let n = bytes.len();
    let mut i: usize = 0;
    while i < n
        invariant
            0 <= i <= n,
            n == bytes@.len(),
            forall|k: int| 0 <= k < i ==> bytes@[k] != 0u8,
        decreases n - i,
    {
        if bytes[i] == 0 {
            return true;
        }
        i = i + 1;
    }
    false
}

/// True exactly when the slice is a valid UTF-8 encoding, in the sense of
/// `vstd::utf8::valid_utf8`: every scalar is well formed, not an overlong
/// encoding, and not in the surrogate range.
fn check_utf8(bytes: &[u8]) -> (r: bool)
    ensures
        r == valid_utf8(bytes@),
{
    let n = bytes.len();
    let mut i: usize = 0;
    while i < n
        invariant
            0 <= i <= n,
            n == bytes@.len(),
            partial_valid_utf8(bytes@, i as int),
        decreases n - i,
    {
        let ghost suffix = bytes@.subrange(i as int, n as int);
        proof {
            assert(suffix.len() == n - i);
        }
        let b0 = bytes[i];
        assert(suffix[0] == b0);
        let width: usize;
        let cp: u32;
        if b0 < 0x80 {
            width = 1;
            cp = (b0 & 0x7f) as u32;
            assert(cp == codepoint_width_1(suffix[0]));
        } else if 0xc0 <= b0 && b0 <= 0xdf {
            if n - i < 2 {
                proof {
                    lemma_window_invalid(bytes@, i as int);
                }
                return false;
            }
            let b1 = bytes[i + 1];
            assert(suffix[1] == b1);
            if !(0x80 <= b1 && b1 <= 0xbf) {
                proof {
                    lemma_window_invalid(bytes@, i as int);
                }
                return false;
            }
            width = 2;
            cp = (((b0 & 0x1f) as u32) << 6u32) | ((b1 & 0x3f) as u32);
            assert(cp == codepoint_width_2(suffix[0], suffix[1]));
        } else if 0xe0 <= b0 && b0 <= 0xef {
            if n - i < 3 {
                proof {
                    lemma_window_invalid(bytes@, i as int);
                }
                return false;
            }
            let b1 = bytes[i + 1];
            let b2 = bytes[i + 2];
            assert(suffix[1] == b1 && suffix[2] == b2);
            if !(0x80 <= b1 && b1 <= 0xbf) || !(0x80 <= b2 && b2 <= 0xbf) {
                proof {
                    lemma_window_invalid(bytes@, i as int);
                }
                return false;
            }
            width = 3;
            cp = (((b0 & 0x0f) as u32) << 12u32) | (((b1 & 0x3f) as u32) << 6u32) | ((b2
                & 0x3f) as u32);
            assert(cp == codepoint_width_3(suffix[0], suffix[1], suffix[2]));
        } else if 0xf0 <= b0 && b0 <= 0xf7 {
            if n - i < 4 {
                proof {
                    lemma_window_invalid(bytes@, i as int);
                }
                return false;
            }
            let b1 = bytes[i + 1];
            let b2 = bytes[i + 2];
            let b3 = bytes[i + 3];
            assert(suffix[1] == b1 && suffix[2] == b2 && suffix[3] == b3);
            if !(0x80 <= b1 && b1 <= 0xbf) || !(0x80 <= b2 && b2 <= 0xbf) || !(0x80 <= b3 && b3
                <= 0xbf) {
                proof {
                    lemma_window_invalid(bytes@, i as int);
                }
                return false;
            }
            width = 4;
            cp = (((b0 & 0x07) as u32) << 18u32) | (((b1 & 0x3f) as u32) << 12u32) | (((b2
                & 0x3f) as u32) << 6u32) | ((b3 & 0x3f) as u32);
            assert(cp == codepoint_width_4(suffix[0], suffix[1], suffix[2], suffix[3]));
        } else {
            // A continuation byte, or a byte no encoding starts with.
            proof {
                lemma_window_invalid(bytes@, i as int);
            }
            return false;
        }
        assert(cp == decode_first_codepoint(suffix));
        assert(width == length_of_first_codepoint(suffix));
        // Overlong encodings are rejected.
        if (width == 2 && cp < 0x80) || (width == 3 && cp < 0x800) || (width == 4 && !(0x10000 <= cp
            && cp <= 0x10ffff)) {
            proof {
                lemma_window_invalid(bytes@, i as int);
            }
            return false;
        }
        // Values in the surrogate range are not Unicode scalars.
        if 0xd800 <= cp && cp <= 0xdfff {
            proof {
                lemma_window_invalid(bytes@, i as int);
            }
            return false;
        }
        proof {
            assert(valid_first_scalar(suffix));
            assert(length_of_first_scalar(suffix) == width);
            partial_valid_utf8_extend(bytes@, i as int);
        }
        i = i + width;
    }
    proof {
        assert(bytes@.subrange(0, n as int) =~= bytes@);
    }
    true
}

/// When a valid prefix is followed by bytes that start with no well-formed
/// scalar, the whole sequence is not valid UTF-8.
proof fn lemma_window_invalid(bytes: Seq<u8>, i: int)
    requires
        partial_valid_utf8(bytes, i),
        i < bytes.len(),
        !valid_first_scalar(bytes.subrange(i, bytes.len() as int)),
    ensures
        !valid_utf8(bytes),
{
    let suffix = bytes.subrange(i, bytes.len() as int);
    assert(suffix.len() > 0);
    assert(!valid_utf8(suffix));
    partial_valid_partial_invalid_utf8(bytes, i);
}

/// Classifies file data as text or binary from its leading bytes alone.
///
/// Only the first `SNIFF_LEN` bytes are inspected; anything beyond that
/// window, valid or not, does not change the verdict. Empty data is text;
/// a window with a NUL byte, or one that is not valid UTF-8, is binary.
pub fn is_text_file(bytes: &[u8]) -> (r: bool)
    ensures
        r == is_text(sniff_window(bytes@)),
{
    let n = if bytes.len() > SNIFF_LEN {
        SNIFF_LEN
    } else {
        bytes.len()
    };
    let window = &bytes[0..n];
    proof {
        assert(window@ =~= sniff_window(bytes@));
    }
    if window.len() == 0 {
        return true;
    }
    if contains_nul(window) {
        return false;
    }
    check_utf8(window)
}

} // verus!
