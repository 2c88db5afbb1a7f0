//! UTF-8 validity: a byte sequence is accepted as text exactly when it is a
//! well-formed UTF-8 encoding. The relay drops a read cycle whose stripped
//! payload fails this check.

use vstd::prelude::*;

verus! {

/// Whether `b` is a UTF-8 continuation byte (`0b10xx_xxxx`).
pub open spec fn is_cont(b: u8) -> bool {
    0x80 <= b && b <= 0xBF
}

/// Whether `s` is a well-formed UTF-8 encoding: a sequence of one- to
/// four-byte scalar-value encodings, with overlong forms, surrogates and
/// values above U+10FFFF excluded.
pub open spec fn is_utf8(s: Seq<u8>) -> bool
    decreases s.len(),
{
    if s.len() == 0 {
        true
    } else {
        let b0 = s[0];
        if b0 < 0x80 {
            is_utf8(s.skip(1))
        } else if 0xC2 <= b0 && b0 <= 0xDF {
            s.len() >= 2 && is_cont(s[1]) && is_utf8(s.skip(2))
        } else if b0 == 0xE0 {
            s.len() >= 3 && 0xA0 <= s[1] && s[1] <= 0xBF && is_cont(s[2]) && is_utf8(s.skip(3))
        } else if b0 == 0xED {
            s.len() >= 3 && 0x80 <= s[1] && s[1] <= 0x9F && is_cont(s[2]) && is_utf8(s.skip(3))
        } else if 0xE1 <= b0 && b0 <= 0xEF {
            s.len() >= 3 && is_cont(s[1]) && is_cont(s[2]) && is_utf8(s.skip(3))
        } else if b0 == 0xF0 {
            s.len() >= 4 && 0x90 <= s[1] && s[1] <= 0xBF && is_cont(s[2]) && is_cont(s[3])
                && is_utf8(s.skip(4))
        } else if b0 == 0xF4 {
            s.len() >= 4 && 0x80 <= s[1] && s[1] <= 0x8F && is_cont(s[2]) && is_cont(s[3])
                && is_utf8(s.skip(4))
        } else if 0xF1 <= b0 && b0 <= 0xF3 {
            s.len() >= 4 && is_cont(s[1]) && is_cont(s[2]) && is_cont(s[3]) && is_utf8(s.skip(4))
        } else {
            false
        }
    }
}

/// Decides UTF-8 validity of `bytes`.
pub fn check_utf8(bytes: &Vec<u8>) -> (r: bool)
    ensures
        r == is_utf8(bytes@),
{
    let ghost s = bytes@;
    let n = bytes.len();
    let mut i: usize = 0;
    proof {
        assert(s.skip(0) =~= s);
    }
    while i < n
        invariant
            n == s.len(),
            bytes@ == s,
            i <= n,
            is_utf8(s) == is_utf8(s.skip(i as int)),
        decreases n - i,
    {
        let ghost rest = s.skip(i as int);
        let b0 = bytes[i];
        assert(rest[0] == b0);
        let step: usize;
        if b0 < 0x80 {
            step = 1;
        } else if 0xC2 <= b0 && b0 <= 0xDF {
            if n - i < 2 || !cont_at(bytes, i + 1) {
                proof {
                    assert(rest.len() >= 2 ==> rest[1] == s[i + 1]);
                }
                return false;
            }
            step = 2;
        } else if b0 == 0xE0 {
            if n - i < 3 || !(0xA0 <= bytes[i + 1] && bytes[i + 1] <= 0xBF) || !cont_at(
                bytes,
                i + 2,
            ) {
                proof {
                    assert(rest.len() >= 2 ==> rest[1] == s[i + 1]);
                    assert(rest.len() >= 3 ==> rest[2] == s[i + 2]);
                }
                return false;
            }
            step = 3;
        } else if b0 == 0xED {
            if n - i < 3 || !(0x80 <= bytes[i + 1] && bytes[i + 1] <= 0x9F) || !cont_at(
                bytes,
                i + 2,
            ) {
                proof {
                    assert(rest.len() >= 2 ==> rest[1] == s[i + 1]);
                    assert(rest.len() >= 3 ==> rest[2] == s[i + 2]);
                }
                return false;
            }
            step = 3;
        } else if 0xE1 <= b0 && b0 <= 0xEF {
            if n - i < 3 || !cont_at(bytes, i + 1) || !cont_at(bytes, i + 2) {
                proof {
                    assert(rest.len() >= 2 ==> rest[1] == s[i + 1]);
                    assert(rest.len() >= 3 ==> rest[2] == s[i + 2]);
                }
                return false;
            }
            step = 3;
        } else if b0 == 0xF0 {
            if n - i < 4 || !(0x90 <= bytes[i + 1] && bytes[i + 1] <= 0xBF) || !cont_at(
                bytes,
                i + 2,
            ) || !cont_at(bytes, i + 3) {
                proof {
                    assert(rest.len() >= 2 ==> rest[1] == s[i + 1]);
                    assert(rest.len() >= 3 ==> rest[2] == s[i + 2]);
                    assert(rest.len() >= 4 ==> rest[3] == s[i + 3]);
                }
                return false;
            }
            step = 4;
        } else if b0 == 0xF4 {
            if n - i < 4 || !(0x80 <= bytes[i + 1] && bytes[i + 1] <= 0x8F) || !cont_at(
                bytes,
                i + 2,
            ) || !cont_at(bytes, i + 3) {
                proof {
                    assert(rest.len() >= 2 ==> rest[1] == s[i + 1]);
                    assert(rest.len() >= 3 ==> rest[2] == s[i + 2]);
                    assert(rest.len() >= 4 ==> rest[3] == s[i + 3]);
                }
                return false;
            }
            step = 4;
        } else if 0xF1 <= b0 && b0 <= 0xF3 {
            if n - i < 4 || !cont_at(bytes, i + 1) || !cont_at(bytes, i + 2) || !cont_at(
                bytes,
                i + 3,
            ) {
                proof {
                    assert(rest.len() >= 2 ==> rest[1] == s[i + 1]);
                    assert(rest.len() >= 3 ==> rest[2] == s[i + 2]);
                    assert(rest.len() >= 4 ==> rest[3] == s[i + 3]);
                }
                return false;
            }
            step = 4;
        } else {
            return false;
        }
        proof {
            assert(forall|k: int| 0 <= k < rest.len() ==> rest[k] == s[i + k]);
            assert(rest.skip(step as int) =~= s.skip(i + step));
        }
        i += step;
    }
    proof {
        assert(s.skip(n as int) =~= Seq::<u8>::empty());
    }
    true
}

/// Whether the byte at index `j` is a continuation byte.
fn cont_at(bytes: &Vec<u8>, j: usize) -> (r: bool)
    requires
        j < bytes@.len(),
    ensures
        r == is_cont(bytes@[j as int]),
{
    let b = bytes[j];
    0x80 <= b && b <= 0xBF
}

} // verus!
