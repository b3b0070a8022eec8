//! UTF-16 encoding of names and slicing of paths.
use vstd::prelude::*;
use vstd::string::StringSliceAdditionalSpecFns;
use vstd::utf8::{
    encode_utf8_valid_utf8, is_char_boundary_iff_not_is_continuation_byte,
    is_char_boundary_start_end_of_seq, is_continuation_byte,
};
use crate::format::{first_index_of, spec_contains, spec_first_index_of};

verus! {

/// The UTF-16 code units of one character.
pub open spec fn spec_utf16_char(c: char) -> Seq<u16> {
    let v = c as u32;
    if v < 0x10000 {
        seq![v as u16]
    } else {
        let w = (v - 0x10000) as u32;
        seq![(0xd800 + w / 1024) as u16, (0xdc00 + w % 1024) as u16]
    }
}

/// The UTF-16 encoding of a character sequence.
pub open spec fn spec_utf16(s: Seq<char>) -> Seq<u16>
    decreases s.len(),
{
    if s.len() == 0 {
        Seq::empty()
    } else {
        spec_utf16(s.drop_last()) + spec_utf16_char(s.last())
    }
}

/// Extending a prefix by one character appends that character's code units.
pub proof fn lemma_utf16_take(s: Seq<char>, i: int)
    requires
        0 <= i < s.len(),
    ensures
        spec_utf16(s.take(i + 1)) == spec_utf16(s.take(i)) + spec_utf16_char(s[i]),
{
    assert(s.take(i + 1).drop_last() == s.take(i));
}

/// The encoding of a prefix is never longer than the encoding of the whole sequence.
pub proof fn lemma_utf16_take_len(s: Seq<char>, i: int)
    requires
        0 <= i <= s.len(),
    ensures
        spec_utf16(s.take(i)).len() <= spec_utf16(s).len(),
    decreases s.len() - i,
{
    if i < s.len() {
        lemma_utf16_take(s, i);
        lemma_utf16_take_len(s, i + 1);
    } else {
        assert(s.take(i) == s);
    }
}

/// The encoding of a prefix is a prefix of the encoding.
pub proof fn lemma_utf16_prefix(s: Seq<char>, i: int)
    requires
        0 <= i <= s.len(),
    ensures
        spec_utf16(s.take(i)).len() <= spec_utf16(s).len(),
        spec_utf16(s).subrange(0, spec_utf16(s.take(i)).len() as int) == spec_utf16(s.take(i)),
    decreases s.len() - i,
{
    if i < s.len() {
        lemma_utf16_take(s, i);
        lemma_utf16_prefix(s, i + 1);
        let a = spec_utf16(s.take(i));
        let b = spec_utf16(s.take(i + 1));
        assert(b.subrange(0, a.len() as int) == a);
        assert(spec_utf16(s).subrange(0, a.len() as int) == spec_utf16(s).subrange(0, b.len() as int).subrange(0, a.len() as int));
    } else {
        assert(s.take(i) == s);
    }
}

/// Encodes one character as UTF-16; the second unit is present only for a surrogate pair.
pub(crate) fn utf16_char(c: char) -> (r: (u16, Option<u16>))
    ensures
        r.1 is None ==> spec_utf16_char(c) == seq![r.0],
        r.1 matches Some(second) ==> spec_utf16_char(c) == seq![r.0, second],
{
    let v = c as u32;
    if v < 0x10000 {
        (v as u16, None)
    } else {
        assert(v <= 0x10ffff) by {
            vstd::utf8::char_is_scalar(c);
        }
        let w = v - 0x10000;
        ((0xd800 + w / 1024) as u16, Some((0xdc00 + w % 1024) as u16))
    }
}

/// Number of UTF-16 code units of `name`, or `None` once it exceeds `limit`.
pub(crate) fn utf16_length_up_to(name: &str, limit: usize) -> (r: Option<usize>)
    requires
        limit < usize::MAX - 2,
    ensures
        r matches Some(n) ==> n == spec_utf16(name@).len() && n <= limit,
        r is None ==> spec_utf16(name@).len() > limit,
{
    let mut n: usize = 0;
    for c in it: name.chars()
        invariant
            it.seq() == name@,
            n == spec_utf16(it.seq().take(it.index() as int)).len(),
            n <= limit,
            limit < usize::MAX - 2,
    {
        proof {
            lemma_utf16_take(it.seq(), it.index() as int);
        }
        let (_, second) = utf16_char(c);
        n = n + match second { Some(_) => 2, None => 1 };
        if n > limit {
            proof {
                lemma_utf16_take_len(name@, it.index() + 1);
            }
            return None;
        }
    }
    assert(name@.take(name@.len() as int) == name@);
    Some(n)
}

/// A path component that names an entry: not empty and not `.`.
pub open spec fn spec_kept_component(c: Seq<u8>) -> bool {
    c.len() != 0 && c != seq![0x2eu8]
}

/// The components of a path, split at `/`, without empty and `.` components.
#[verifier::opaque]
pub open spec fn spec_path_components(p: Seq<u8>) -> Seq<Seq<u8>>
    decreases p.len(),
{
    if !spec_contains(p, 0x2f) {
        if spec_kept_component(p) {
            seq![p]
        } else {
            Seq::empty()
        }
    } else {
        let i = spec_first_index_of(p, 0x2f);
        if 0 <= i < p.len() {
            let head = p.subrange(0, i);
            let rest = spec_path_components(p.subrange(i + 1, p.len() as int));
            if spec_kept_component(head) {
                seq![head] + rest
            } else {
                rest
            }
        } else {
            Seq::empty()
        }
    }
}

/// Whether the byte at `i` starts a character of `s` (or `i` is the end of `s`).
pub open spec fn spec_at_char_start(s: Seq<u8>, i: int) -> bool {
    i == 0 || i == s.len() || (0 <= i < s.len() && !is_continuation_byte(s[i]))
}

/// The part of `s` between two byte positions that both start a character.
pub(crate) fn sub_str(s: &str, start: usize, end: usize) -> (r: &str)
    requires
        start <= end <= s.spec_bytes().len(),
        spec_at_char_start(s.spec_bytes(), start as int),
        spec_at_char_start(s.spec_bytes(), end as int),
    ensures
        r.spec_bytes() == s.spec_bytes().subrange(start as int, end as int),
{
    proof {
        encode_utf8_valid_utf8(s@);
        is_char_boundary_start_end_of_seq(s.spec_bytes());
        if 0 < start < s.spec_bytes().len() {
            is_char_boundary_iff_not_is_continuation_byte(s.spec_bytes(), start as int);
        }
    }
    let (_, rest) = s.split_at(start);
    proof {
        encode_utf8_valid_utf8(rest@);
        is_char_boundary_start_end_of_seq(rest.spec_bytes());
        if 0 < end - start < rest.spec_bytes().len() {
            assert(rest.spec_bytes()[end - start] == s.spec_bytes()[end as int]);
            is_char_boundary_iff_not_is_continuation_byte(rest.spec_bytes(), end - start);
        }
    }
    let (mid, _) = rest.split_at(end - start);
    assert(mid.spec_bytes() == s.spec_bytes().subrange(start as int, end as int));
    mid
}

/// `s` without its first byte, which is `/`.
fn drop_leading_slash(s: &str) -> (r: &str)
    requires
        s.spec_bytes().len() >= 1,
        s.spec_bytes()[0] == 0x2f,
    ensures
        r.spec_bytes() == s.spec_bytes().drop_first(),
{
    proof {
        let b = s.spec_bytes();
        encode_utf8_valid_utf8(s@);
        reveal_with_fuel(vstd::utf8::valid_utf8, 2);
        reveal_with_fuel(vstd::utf8::is_char_boundary, 2);
        assert(vstd::utf8::length_of_first_scalar(b) == 1);
        assert(vstd::utf8::is_char_boundary(b, 1));
    }
    let (_, rest) = s.split_at(1);
    rest
}

/// The component `path[s..e]` as a string slice.
pub(crate) fn component_str(path: &str, s: usize, e: usize) -> (r: &str)
    requires
        s < e <= path.spec_bytes().len(),
        s == 0 || path.spec_bytes()[s - 1] == 0x2f,
        e == path.spec_bytes().len() || path.spec_bytes()[e as int] == 0x2f,
    ensures
        r.spec_bytes() == path.spec_bytes().subrange(s as int, e as int),
{
    if s == 0 {
        sub_str(path, 0, e)
    } else {
        let with_slash = sub_str(path, s - 1, e);
        let r = drop_leading_slash(with_slash);
        assert(r.spec_bytes() == path.spec_bytes().subrange(s as int, e as int));
        r
    }
}

/// The next component of a path at or after byte `pos`: its start, end, and the position after
/// it, or `None` when no component remains.
pub(crate) fn next_component(path: &[u8], pos: usize) -> (r: Option<(usize, usize, usize)>)
    requires
        pos <= path@.len(),
        pos == 0 || pos == path@.len() || path@[pos - 1] == 0x2f,
    ensures
        r is None ==> spec_path_components(path@.subrange(pos as int, path@.len() as int)).len() == 0,
        r matches Some((s, e, next)) ==> pos <= s <= e <= next <= path@.len() && s < e
            && spec_path_components(path@.subrange(pos as int, path@.len() as int))
                == seq![path@.subrange(s as int, e as int)] + spec_path_components(
                    path@.subrange(next as int, path@.len() as int),
                )
            && (s == 0 || path@[s - 1] == 0x2f)
            && (e == path@.len() || path@[e as int] == 0x2f)
            && (next == path@.len() || path@[next - 1] == 0x2f)
            && (forall|j: int| s <= j < e ==> path@[j] != 0x2f),
    decreases path@.len() - pos,
{
    reveal(spec_path_components);
    let len = path.len();
    let ghost rest = path@.subrange(pos as int, len as int);
    match first_index_of(path, pos, len, 0x2f) {
        None => {
            proof {
                if spec_contains(rest, 0x2f) {
                    let j = choose|j: int| 0 <= j < rest.len() && rest[j] == 0x2f;
                    assert(path@[pos + j] == 0x2f);
                }
            }
            let empty = pos == len;
            let dot = len - pos == 1 && path[pos] == 0x2e;
            proof {
                if !empty && !dot {
                    if rest == seq![0x2eu8] {
                        assert(path@[pos as int] == rest[0]);
                    }
                }
                if dot {
                    assert(rest == seq![0x2eu8]);
                }
            }
            if empty || dot {
                None
            } else {
                assert(spec_path_components(path@.subrange(len as int, len as int)).len() == 0) by {
                    assert(!spec_contains(path@.subrange(len as int, len as int), 0x2f));
                }
                Some((pos, len, len))
            }
        },
        Some(i) => {
            let ghost head = path@.subrange(pos as int, i as int);
            let ghost tail = path@.subrange(i + 1, len as int);
            proof {
                assert(rest[i - pos] == 0x2f);
                let f = spec_first_index_of(rest, 0x2f);
                if f < i - pos {
                    assert(path@[pos + f] == 0x2f);
                }
                if f > i - pos {
                    assert(rest[i - pos] != 0x2f);
                }
                assert(0 <= f < rest.len());
                assert(rest.subrange(0, f) == head);
                assert(rest.subrange(f + 1, rest.len() as int) == tail);
            }
            let dot = i - pos == 1 && path[pos] == 0x2e;
            proof {
                if dot {
                    assert(head == seq![0x2eu8]);
                }
                if head == seq![0x2eu8] {
                    assert(path@[pos as int] == head[0]);
                }
            }
            if i == pos || dot {
                next_component(path, i + 1)
            } else {
                Some((pos, i, i + 1))
            }
        },
    }
}

} // verus!
