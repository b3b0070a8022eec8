//! Directory-entry updates, file and directory creation, removal and renaming, file writes and
//! truncation.
use vstd::prelude::*;
use vstd::std_specs::convert::FromSpec;
use vstd::string::StringSliceAdditionalSpecFns;
use crate::access::{
    AllocationAccess, BlockWrite, DirectoryAccess, Error, FileAccess, FileSystem, FoundEntry,
    chain_position, directory_location, entry_first_cluster, spec_directory_location,
    spec_entry_first_cluster,
    spec_offset_past_any_chain,
    spec_file_info, u32_from,
};
use crate::format::{
    DIRECTORY_ENTRY_SIZE, FatType, FormatError, LfnEntry, RawDirEntry, ShortName,
    lemma_first_cluster_round_trip, lemma_first_index_of, spec_component_matches, spec_contains,
    spec_first_index_of, spec_last_index_of, spec_put16, spec_put32, spec_short_name_matches,
    spec_split_extension, spec_trim_at_space,
};
use crate::handle::{
    DirectoryEntryLocation, DirectoryHandle, DirectoryInfo, DirectoryLocation, FileHandle,
    FileInfo, MutableFileHandle,
};
use crate::name::{
    component_str, lemma_utf16_take, spec_path_components, spec_utf16, utf16_char,
    utf16_length_up_to,
};
use crate::volume::{Cluster, Volume, lemma_cluster_eq, lemma_cluster_from};

verus! {

// ---------------------------------------------------------------------------
// Names
// ---------------------------------------------------------------------------

/// Bytes allowed in a short name besides upper-case letters and digits.
pub open spec fn spec_is_short_character(b: u8) -> bool {
    (0x41 <= b <= 0x5a) || (0x30 <= b <= 0x39) || b == 0x24 || b == 0x25 || b == 0x27 || b == 0x2d
        || b == 0x5f || b == 0x40 || b == 0x7e || b == 0x60 || b == 0x21 || b == 0x28 || b == 0x29
        || b == 0x7b || b == 0x7d || b == 0x5e || b == 0x23 || b == 0x26
}

fn is_short_character(byte: u8) -> (r: bool)
    ensures
        r == spec_is_short_character(byte),
{
    (0x41 <= byte && byte <= 0x5a) || (0x30 <= byte && byte <= 0x39) || byte == 0x24 || byte == 0x25
        || byte == 0x27 || byte == 0x2d || byte == 0x5f || byte == 0x40 || byte == 0x7e || byte
        == 0x60 || byte == 0x21 || byte == 0x28 || byte == 0x29 || byte == 0x7b || byte == 0x7d
        || byte == 0x5e || byte == 0x23 || byte == 0x26
}

/// ASCII lower-case letters map to upper case; every other byte is kept.
pub open spec fn spec_ascii_upper(b: u8) -> u8 {
    if 0x61 <= b <= 0x7a {
        (b - 32) as u8
    } else {
        b
    }
}

fn ascii_upper(b: u8) -> (r: u8)
    ensures
        r == spec_ascii_upper(b),
{
    if 0x61 <= b && b <= 0x7a {
        b - 32
    } else {
        b
    }
}

/// A character as it appears in a generated short alias: an ASCII character upper-cased when
/// that gives a short-name character, anything else `_`.
pub open spec fn spec_sanitized(c: char) -> u8 {
    if (c as u32) < 0x80 && spec_is_short_character(spec_ascii_upper(c as u8)) {
        spec_ascii_upper(c as u8)
    } else {
        0x5f
    }
}

fn sanitized_short_character(character: char) -> (r: u8)
    ensures
        r == spec_sanitized(character),
{
    let v = character as u32;
    if v < 0x80 {
        let upper = ascii_upper(v as u8);
        if is_short_character(upper) {
            return upper;
        }
    }
    0x5f
}

/// A byte that `validate_name` refuses: a control character or one of `"*/:<>?\|`.
pub open spec fn spec_forbidden_name_byte(b: u8) -> bool {
    b <= 0x1f || b == 0x22 || b == 0x2a || b == 0x2f || b == 0x3a || b == 0x3c || b == 0x3e
        || b == 0x3f || b == 0x5c || b == 0x7c
}

/// Whether `validate_name` refuses a name as `InvalidName`: empty, `.` or `..`, ending in a
/// space or a dot, or holding a forbidden character. (Every forbidden character is ASCII, so a
/// check on the UTF-8 bytes is a check on the characters.)
pub open spec fn spec_invalid_name(n: Seq<u8>) -> bool {
    ||| n.len() == 0
    ||| n == seq![0x2eu8]
    ||| n == seq![0x2eu8, 0x2eu8]
    ||| n.last() == 0x20
    ||| n.last() == 0x2e
    ||| exists|i: int| 0 <= i < n.len() && #[trigger] spec_forbidden_name_byte(n[i])
}

fn validate_name<E>(name: &str) -> (r: Result<(), Error<E>>)
    ensures
        spec_invalid_name(name.spec_bytes()) ==> r == Err::<(), Error<E>>(Error::InvalidName),
        !spec_invalid_name(name.spec_bytes()) && spec_utf16(name@).len() > 255 ==> r == Err::<
            (),
            Error<E>,
        >(Error::NameTooLong),
        !spec_invalid_name(name.spec_bytes()) && spec_utf16(name@).len() <= 255 ==> r is Ok,
{
    let n = name.as_bytes();
    let len = n.len();
    let mut i: usize = 0;
    while i < len
        invariant
            i <= len,
            len == n@.len(),
            n@ == name.spec_bytes(),
            forall|j: int| 0 <= j < i ==> !spec_forbidden_name_byte(#[trigger] n@[j]),
        decreases len - i,
    {
        let b = n[i];
        if b <= 0x1f || b == 0x22 || b == 0x2a || b == 0x2f || b == 0x3a || b == 0x3c || b == 0x3e
            || b == 0x3f || b == 0x5c || b == 0x7c {
            assert(spec_forbidden_name_byte(n@[i as int]));
            return Err(Error::InvalidName);
        }
        i = i + 1;
    }
    if len == 0 {
        return Err(Error::InvalidName);
    }
    if (len == 1 && n[0] == 0x2e) || (len == 2 && n[0] == 0x2e && n[1] == 0x2e) {
        proof {
            if len == 1 {
                assert(n@ == seq![0x2eu8]);
            } else {
                assert(n@ == seq![0x2eu8, 0x2eu8]);
            }
        }
        return Err(Error::InvalidName);
    }
    if n[len - 1] == 0x20 || n[len - 1] == 0x2e {
        return Err(Error::InvalidName);
    }
    proof {
        if n@ == seq![0x2eu8] {
            assert(n@[0] == 0x2e);
        }
        if n@ == seq![0x2eu8, 0x2eu8] {
            assert(n@[0] == 0x2e && n@[1] == 0x2e);
        }
    }
    match utf16_length_up_to(name, 255) {
        Some(_) => Ok(()),
        None => Err(Error::NameTooLong),
    }
}

/// Writes the UTF-16 encoding of a name into `target`; more than 255 code units is
/// `NameTooLong`.
fn encode_name<E>(name: &str, target: &mut [u16; 255]) -> (r: Result<usize, Error<E>>)
    ensures
        spec_utf16(name@).len() <= 255 ==> r == Ok::<usize, Error<E>>(spec_utf16(name@).len() as usize)
            && final(target)@.subrange(0, spec_utf16(name@).len() as int) == spec_utf16(name@),
        spec_utf16(name@).len() > 255 ==> r == Err::<usize, Error<E>>(Error::NameTooLong),
{
    let mut length: usize = 0;
    for c in it: name.chars()
        invariant
            it.seq() == name@,
            length == spec_utf16(it.seq().take(it.index() as int)).len(),
            length <= 255,
            target@.len() == 255,
            target@.subrange(0, length as int) == spec_utf16(it.seq().take(it.index() as int)),
    {
        proof {
            lemma_utf16_take(it.seq(), it.index() as int);
        }
        let (first, second) = utf16_char(c);
        if length >= 255 {
            proof {
                crate::name::lemma_utf16_take_len(name@, it.index() + 1);
            }
            return Err(Error::NameTooLong);
        }
        target[length] = first;
        length = length + 1;
        if let Some(unit) = second {
            if length >= 255 {
                proof {
                    crate::name::lemma_utf16_take_len(name@, it.index() + 1);
                }
                return Err(Error::NameTooLong);
            }
            target[length] = unit;
            length = length + 1;
        }
        assert(target@.subrange(0, length as int) == spec_utf16(it.seq().take(it.index() + 1)));
    }
    assert(name@.take(name@.len() as int) == name@);
    Ok(length)
}

/// The base of a name (before its first dot) and its extension (after the first dot).
pub open spec fn spec_first_dot_split(n: Seq<u8>) -> (Seq<u8>, Seq<u8>) {
    if spec_contains(n, 0x2e) {
        let d = spec_first_index_of(n, 0x2e);
        (n.subrange(0, d), n.subrange(d + 1, n.len() as int))
    } else {
        (n, Seq::empty())
    }
}

/// Whether every byte is a short-name character.
pub open spec fn spec_all_short(s: Seq<u8>) -> bool {
    forall|i: int| 0 <= i < s.len() ==> #[trigger] spec_is_short_character(s[i])
}

/// An 11-byte name field: `base` padded with spaces to 8 bytes, then `extension` padded to 3.
pub open spec fn spec_packed(base: Seq<u8>, extension: Seq<u8>) -> Seq<u8> {
    Seq::new(
        11,
        |i: int|
            if i < base.len() {
                base[i]
            } else if 8 <= i < 8 + extension.len() {
                extension[i - 8]
            } else {
                0x20u8
            },
    )
}

/// Whether some byte is an ASCII lower-case letter.
pub open spec fn spec_has_lowercase(n: Seq<u8>) -> bool {
    exists|i: int| 0 <= i < n.len() && 0x61 <= #[trigger] n[i] <= 0x7a
}

/// The short name that a name is stored under without an alias, if it has one: an upper-case
/// 8.3 name of short-name characters with at most one dot.
pub open spec fn spec_canonical_short_name(n: Seq<u8>) -> Option<Seq<u8>> {
    let (base, extension) = spec_first_dot_split(n);
    if base.len() == 0 || base.len() > 8 || extension.len() > 3 || !spec_all_short(base)
        || !spec_all_short(extension) || spec_contains(extension, 0x2e) || spec_has_lowercase(n) {
        None
    } else {
        Some(spec_packed(base, extension))
    }
}

/// Whether `n[start..end]` consists of short-name characters.
fn all_short(n: &[u8], start: usize, end: usize) -> (r: bool)
    requires
        start <= end <= n@.len(),
    ensures
        r == spec_all_short(n@.subrange(start as int, end as int)),
{
    let ghost s = n@.subrange(start as int, end as int);
    let mut i = start;
    while i < end
        invariant
            start <= i <= end <= n@.len(),
            s == n@.subrange(start as int, end as int),
            forall|j: int| 0 <= j < i - start ==> #[trigger] spec_is_short_character(s[j]),
        decreases end - i,
    {
        if !is_short_character(n[i]) {
            assert(!spec_is_short_character(s[i - start]));
            return false;
        }
        i = i + 1;
    }
    true
}

fn has_lowercase(n: &[u8]) -> (r: bool)
    ensures
        r == spec_has_lowercase(n@),
{
    let mut i: usize = 0;
    while i < n.len()
        invariant
            i <= n@.len(),
            forall|j: int| 0 <= j < i ==> !(0x61 <= #[trigger] n@[j] <= 0x7a),
        decreases n@.len() - i,
    {
        if 0x61 <= n[i] && n[i] <= 0x7a {
            return true;
        }
        i = i + 1;
    }
    false
}

/// A name field of spaces.
fn blank_name() -> (r: [u8; 11])
    ensures
        forall|j: int| 0 <= j < 11 ==> r@[j] == 0x20,
{
    [0x20u8, 0x20, 0x20, 0x20, 0x20, 0x20, 0x20, 0x20, 0x20, 0x20, 0x20]
}

/// Packs `n[..base_end]` and `n[extension_start..]` into a name field.
fn pack_name(n: &[u8], base_end: usize, extension_start: usize) -> (r: [u8; 11])
    requires
        base_end <= 8,
        base_end <= n@.len(),
        extension_start <= n@.len(),
        n@.len() - extension_start <= 3,
    ensures
        r@ == spec_packed(
            n@.subrange(0, base_end as int),
            n@.subrange(extension_start as int, n@.len() as int),
        ),
{
    let ghost base = n@.subrange(0, base_end as int);
    let ghost extension = n@.subrange(extension_start as int, n@.len() as int);
    let mut raw = blank_name();
    let mut k: usize = 0;
    while k < base_end
        invariant
            k <= base_end <= 8,
            base_end <= n@.len(),
            raw@.len() == 11,
            forall|j: int| 0 <= j < k ==> raw@[j] == n@[j],
            forall|j: int| k <= j < 11 ==> raw@[j] == 0x20,
        decreases base_end - k,
    {
        raw[k] = n[k];
        k = k + 1;
    }
    let extension_length = n.len() - extension_start;
    let mut k: usize = 0;
    while k < extension_length
        invariant
            k <= extension_length <= 3,
            extension_start + extension_length == n@.len(),
            n@.len() == n.len(),
            base_end <= 8,
            raw@.len() == 11,
            forall|j: int| 0 <= j < base_end ==> raw@[j] == n@[j],
            forall|j: int| 8 <= j < 8 + k ==> raw@[j] == n@[extension_start + j - 8],
            forall|j: int| base_end <= j < 8 ==> raw@[j] == 0x20,
            forall|j: int| 8 + k <= j < 11 ==> raw@[j] == 0x20,
        decreases extension_length - k,
    {
        raw[8 + k] = n[extension_start + k];
        k = k + 1;
    }
    assert(raw@ == spec_packed(base, extension));
    raw
}

fn canonical_short_name(name: &str) -> (r: Option<ShortName>)
    ensures
        match spec_canonical_short_name(name.spec_bytes()) {
            Some(s) => r matches Some(short) && short.0@ == s,
            None => r is None,
        },
{
    let n = name.as_bytes();
    let len = n.len();
    let (base_end, extension_start) = match crate::format::first_index_of(n, 0, len, 0x2e) {
        Some(d) => (d, d + 1),
        None => (len, len),
    };
    let ghost base = n@.subrange(0, base_end as int);
    let ghost extension = n@.subrange(extension_start as int, len as int);
    proof {
        if spec_contains(n@, 0x2e) {
            let f = spec_first_index_of(n@, 0x2e);
            assert(f == base_end) by {
                if f < base_end {
                } else if f > base_end {
                }
            }
        }
        assert((base, extension) == spec_first_dot_split(n@));
    }
    if base_end == 0 || base_end > 8 || len - extension_start > 3 {
        return None;
    }
    if !all_short(n, 0, base_end) || !all_short(n, extension_start, len) {
        return None;
    }
    if let Some(j) = crate::format::first_index_of(n, extension_start, len, 0x2e) {
        assert(extension[j - extension_start] == 0x2e);
        return None;
    }
    if has_lowercase(n) {
        return None;
    }
    proof {
        if spec_contains(extension, 0x2e) {
            let j = choose|j: int| 0 <= j < extension.len() && extension[j] == 0x2e;
            assert(n@[extension_start + j] == 0x2e);
        }
    }
    Some(ShortName(pack_name(n, base_end, extension_start)))
}

/// Decimal digits of a number, most significant first; none for 0.
pub open spec fn spec_decimal_digits(v: nat) -> Seq<u8>
    decreases v,
{
    if v == 0 {
        Seq::empty()
    } else {
        spec_decimal_digits(v / 10).push((0x30 + v % 10) as u8)
    }
}

proof fn lemma_decimal_digits_len(v: nat)
    requires
        v <= 999_999,
    ensures
        spec_decimal_digits(v).len() <= 6,
        v < 10 ==> spec_decimal_digits(v).len() <= 1,
        v < 100 ==> spec_decimal_digits(v).len() <= 2,
        v < 1000 ==> spec_decimal_digits(v).len() <= 3,
        v < 10000 ==> spec_decimal_digits(v).len() <= 4,
        v < 100000 ==> spec_decimal_digits(v).len() <= 5,
        v >= 1 ==> spec_decimal_digits(v).len() >= 1,
    decreases v,
{
    if v > 0 {
        lemma_decimal_digits_len(v / 10);
    }
}

/// The decimal digits of `ordinal`, right-aligned in six bytes, and where they start.
fn decimal_digits(ordinal: u32) -> (r: ([u8; 6], usize))
    requires
        ordinal <= 999_999,
    ensures
        r.1 <= 6,
        r.0@.subrange(r.1 as int, 6) == spec_decimal_digits(ordinal as nat),
{
    let mut digits = [0u8; 6];
    let mut value = ordinal;
    let mut digit_start: usize = 6;
    proof {
        lemma_decimal_digits_len(ordinal as nat);
    }
    while value != 0
        invariant
            digit_start <= 6,
            value <= 999_999,
            digits@.len() == 6,
            spec_decimal_digits(value as nat).len() <= digit_start,
            spec_decimal_digits(ordinal as nat) == spec_decimal_digits(value as nat)
                + digits@.subrange(digit_start as int, 6),
        decreases value,
    {
        proof {
            lemma_decimal_digits_len(value as nat);
        }
        let ghost old_digits = digits@;
        let ghost old_value = value as nat;
        digit_start = digit_start - 1;
        digits[digit_start] = 0x30 + (value % 10) as u8;
        value = value / 10;
        assert(digits@.subrange(digit_start as int, 6) == seq![(0x30 + old_value % 10) as u8]
            + old_digits.subrange(digit_start + 1, 6));
    }
    (digits, digit_start)
}

/// The characters of a string.
fn chars_of(name: &str) -> (r: Vec<char>)
    ensures
        r@ == name@,
{
    let mut chars: Vec<char> = Vec::new();
    for c in it: name.chars()
        invariant
            it.seq() == name@,
            chars@ == it.seq().take(it.index() as int),
    {
        chars.push(c);
    }
    assert(name@.take(name@.len() as int) == name@);
    chars
}

/// The last position of `.` in a character sequence.
pub open spec fn spec_last_dot(n: Seq<char>) -> int
    decreases n.len(),
{
    if n.len() == 0 {
        -1
    } else if n.last() == '.' {
        n.len() - 1
    } else {
        spec_last_dot(n.drop_last())
    }
}

/// The characters of a name before its last dot, and after it (empty without a dot).
pub open spec fn spec_last_dot_split_chars(n: Seq<char>) -> (Seq<char>, Seq<char>) {
    let d = spec_last_dot(n);
    if d >= 0 {
        (n.subrange(0, d), n.subrange(d + 1, n.len() as int))
    } else {
        (n, Seq::empty())
    }
}

fn last_dot(chars: &Vec<char>) -> (r: Option<usize>)
    ensures
        match r {
            Some(d) => d == spec_last_dot(chars@) && d < chars@.len(),
            None => spec_last_dot(chars@) == -1,
        },
{
    let mut j = chars.len();
    assert(chars@.subrange(0, j as int) == chars@);
    while j > 0
        invariant
            j <= chars@.len(),
            spec_last_dot(chars@) == spec_last_dot(chars@.subrange(0, j as int)),
        decreases j,
    {
        let ghost prefix = chars@.subrange(0, j as int);
        assert(prefix.drop_last() == chars@.subrange(0, j - 1));
        if chars[j - 1] == '.' {
            return Some(j - 1);
        }
        j = j - 1;
    }
    None
}

/// The generated alias `BASE~N.EXT` for a name and an ordinal: the base is cut so that the
/// whole fits in 8 characters (an empty base becomes `_`), and the extension in 3.
pub open spec fn spec_short_alias(name: Seq<char>, ordinal: nat) -> Seq<u8> {
    let (base, extension) = spec_last_dot_split_chars(name);
    let digits = spec_decimal_digits(ordinal);
    let prefix_length = 7 - digits.len();
    Seq::new(
        11,
        |i: int|
            if i < prefix_length {
                if i < base.len() {
                    spec_sanitized(base[i])
                } else if i == 0 {
                    0x5fu8
                } else {
                    0x20u8
                }
            } else if i == prefix_length {
                0x7eu8
            } else if i < 8 {
                digits[i - prefix_length - 1]
            } else if i - 8 < extension.len() {
                spec_sanitized(extension[i - 8])
            } else {
                0x20u8
            },
    )
}

fn short_alias(name: &str, ordinal: u32) -> (r: ShortName)
    requires
        1 <= ordinal <= 999_999,
    ensures
        r.0@ == spec_short_alias(name@, ordinal as nat),
{
    let chars = chars_of(name);
    let count = chars.len();
    let (base_end, extension_start) = match last_dot(&chars) {
        Some(d) => (d, d + 1),
        None => (count, count),
    };
    let (digits, digit_start) = decimal_digits(ordinal);
    proof {
        lemma_decimal_digits_len(ordinal as nat);
    }
    let ghost dseq = spec_decimal_digits(ordinal as nat);
    let ghost spec = spec_short_alias(name@, ordinal as nat);
    let ghost base = chars@.subrange(0, base_end as int);
    let ghost extension = chars@.subrange(extension_start as int, count as int);
    assert((base, extension) == spec_last_dot_split_chars(name@));
    let prefix_length = digit_start + 1;
    let mut raw = blank_name();
    let mut written: usize = 0;
    while written < prefix_length && written < base_end
        invariant
            written <= prefix_length <= 7,
            written <= base_end <= count == chars@.len(),
            raw@.len() == 11,
            forall|k: int| 0 <= k < written ==> raw@[k] == spec_sanitized(chars@[k]),
            forall|k: int| written <= k < 11 ==> raw@[k] == 0x20,
        decreases prefix_length - written,
    {
        raw[written] = sanitized_short_character(chars[written]);
        written = written + 1;
    }
    if written == 0 {
        raw[0] = 0x5f;
    }
    assert forall|m: int| 0 <= m < prefix_length implies raw@[m] == spec[m] by {
        if m < written {
            assert(base[m] == chars@[m]);
        }
    }
    raw[prefix_length] = 0x7e;
    let mut k: usize = 0;
    while k < 6 - digit_start
        invariant
            k <= 6 - digit_start,
            digit_start <= 6,
            prefix_length == digit_start + 1,
            dseq == digits@.subrange(digit_start as int, 6),
            spec == spec_short_alias(name@, ordinal as nat),
            dseq == spec_decimal_digits(ordinal as nat),
            (base, extension) == spec_last_dot_split_chars(name@),
            raw@.len() == 11,
            forall|m: int| 0 <= m <= prefix_length ==> raw@[m] == spec[m],
            forall|m: int| prefix_length + 1 <= m < prefix_length + 1 + k ==> raw@[m] == spec[m],
            forall|m: int| prefix_length + 1 + k <= m < 11 ==> raw@[m] == 0x20,
        decreases 6 - digit_start - k,
    {
        raw[prefix_length + 1 + k] = digits[digit_start + k];
        k = k + 1;
    }
    let extension_length = count - extension_start;
    let mut k: usize = 0;
    while k < 3 && k < extension_length
        invariant
            k <= 3,
            k <= extension_length,
            extension_start + extension_length == count == chars@.len(),
            extension == chars@.subrange(extension_start as int, count as int),
            spec == spec_short_alias(name@, ordinal as nat),
            (base, extension) == spec_last_dot_split_chars(name@),
            raw@.len() == 11,
            forall|m: int| 0 <= m < 8 + k ==> raw@[m] == spec[m],
            forall|m: int| 8 + k <= m < 11 ==> raw@[m] == 0x20,
        decreases 3 - k,
    {
        raw[8 + k] = sanitized_short_character(chars[extension_start + k]);
        k = k + 1;
    }
    assert(raw@ == spec);
    ShortName(raw)
}

// ---------------------------------------------------------------------------
// Paths
// ---------------------------------------------------------------------------

/// A path without its leading slashes.
pub open spec fn spec_trim_leading_slashes(p: Seq<u8>) -> Seq<u8>
    decreases p.len(),
{
    if p.len() > 0 && p[0] == 0x2f {
        spec_trim_leading_slashes(p.drop_first())
    } else {
        p
    }
}

/// A path split into its parent directory path and its last component, after leading slashes
/// are dropped; `None` when nothing is left or the path ends with a slash.
pub open spec fn spec_split_parent(p: Seq<u8>) -> Option<(Seq<u8>, Seq<u8>)> {
    let t = spec_trim_leading_slashes(p);
    if t.len() == 0 || t.last() == 0x2f {
        None
    } else if spec_contains(t, 0x2f) {
        let i = spec_last_index_of(t, 0x2f);
        Some((t.subrange(0, i), t.subrange(i + 1, t.len() as int)))
    } else {
        Some((Seq::empty(), t))
    }
}

/// The number of leading slashes of a path.
fn leading_slashes(p: &[u8]) -> (r: usize)
    ensures
        r <= p@.len(),
        spec_trim_leading_slashes(p@) == p@.subrange(r as int, p@.len() as int),
        r == 0 || p@[r - 1] == 0x2f,
{
    let mut i: usize = 0;
    assert(p@.subrange(0, p@.len() as int) == p@);
    while i < p.len() && p[i] == 0x2f
        invariant
            i <= p@.len(),
            spec_trim_leading_slashes(p@) == spec_trim_leading_slashes(
                p@.subrange(i as int, p@.len() as int),
            ),
            i == 0 || p@[i - 1] == 0x2f,
        decreases p@.len() - i,
    {
        assert(p@.subrange(i as int, p@.len() as int).drop_first() == p@.subrange(
            i + 1,
            p@.len() as int,
        ));
        i = i + 1;
    }
    i
}

/// Where the last component of a path starts and where its parent path starts and ends.
///
/// The result is `(start, slash)`: the parent is `path[start..slash]` and the name follows
/// `slash`, or, without a slash, the name is `path[start..]`.
fn split_parent(path: &[u8]) -> (r: Option<(usize, Option<usize>)>)
    ensures
        spec_split_parent(path@) is None <==> r is None,
        r matches Some((start, slash)) ==> {
            &&& start < path@.len()
            &&& (start == 0 || path@[start - 1] == 0x2f)
            &&& match slash {
                Some(i) => {
                    &&& start <= i < path@.len() - 1
                    &&& path@[i as int] == 0x2f
                    &&& spec_split_parent(path@) == Some(
                        (
                            path@.subrange(start as int, i as int),
                            path@.subrange(i + 1, path@.len() as int),
                        ),
                    )
                },
                None => spec_split_parent(path@) == Some(
                    (Seq::<u8>::empty(), path@.subrange(start as int, path@.len() as int)),
                ),
            }
        },
{
    let len = path.len();
    let start = leading_slashes(path);
    let ghost t = path@.subrange(start as int, len as int);
    if start == len || path[len - 1] == 0x2f {
        return None;
    }
    match crate::format::last_index_of(path, start, len, 0x2f) {
        Some(i) => {
            proof {
                assert(t[i - start] == 0x2f);
                let j = spec_last_index_of(t, 0x2f);
                assert(j == i - start) by {
                    if j < i - start {
                    } else if j > i - start {
                        assert(path@[start + j] == 0x2f);
                    }
                }
                assert(t.subrange(0, i - start) == path@.subrange(start as int, i as int));
                assert(t.subrange(i - start + 1, t.len() as int) == path@.subrange(
                    i + 1,
                    len as int,
                ));
            }
            Some((start, Some(i)))
        },
        None => {
            proof {
                if spec_contains(t, 0x2f) {
                    let j = choose|j: int| 0 <= j < t.len() && t[j] == 0x2f;
                    assert(path@[start + j] == 0x2f);
                }
            }
            Some((start, None))
        },
    }
}

// ---------------------------------------------------------------------------
// Directory writes
// ---------------------------------------------------------------------------

/// `a / b` rounded up.
pub open spec fn spec_div_ceil(a: int, b: int) -> int {
    a / b + if a % b == 0 {
        0int
    } else {
        1int
    }
}

fn div_ceil(a: u64, b: u64) -> (r: u64)
    requires
        b > 0,
    ensures
        r == spec_div_ceil(a as int, b as int),
{
    assert(a % b != 0 ==> a / b < u64::MAX) by (nonlinear_arith)
        requires
            b > 0,
    {
        if b == 1 {
            assert(a % b == 0);
        } else {
            assert(a / b <= a / 2);
        }
    }
    a / b + if a % b == 0 {
        0
    } else {
        1
    }
}

/// The number of clusters of `cluster_size` bytes that hold `end` bytes, if it fits in a `u32`.
fn clusters_for(end: u64, cluster_size: usize) -> (r: Option<u32>)
    requires
        cluster_size > 0,
    ensures
        spec_div_ceil(end as int, cluster_size as int) <= u32::MAX ==> r == Some(
            spec_div_ceil(end as int, cluster_size as int) as u32,
        ),
        spec_div_ceil(end as int, cluster_size as int) > u32::MAX ==> r is None,
{
    u32_from(div_ceil(end, cluster_size as u64))
}

/// Where a run of free directory entries was found.
#[derive(Clone, Copy, Debug, PartialEq, Eq)]
pub struct FreeDirectoryEntries {
    /// Index of the first entry of the run.
    pub start_index: u32,
    /// Whether the run begins at or runs into the end of the directory.
    pub reached_end: bool,
}

/// One step of a search for `count` consecutive free directory entries.
#[derive(Clone, Copy, Debug, PartialEq, Eq)]
pub enum FreeRunStep {
    /// The search goes on with the run of free entries found so far: its start and length.
    Continue(u32, u32),
    /// The search ends with this result.
    Found(FreeDirectoryEntries),
}

/// The step of a free-entry search at the record with `index`, given the run `(start, length)`
/// found before it and the record's first byte (`None` past the end of the directory's data).
/// The end of the directory (or a 0 byte) ends the search with the run that reaches it; a
/// deleted record (0xE5) extends the run, which ends the search once it is `count` long; any
/// other record breaks the run.
pub open spec fn spec_free_run_step(
    start: u32,
    length: u32,
    index: u32,
    first_byte: Option<u8>,
    count: u32,
) -> FreeRunStep {
    let run_start = if length == 0 {
        index
    } else {
        start
    };
    match first_byte {
        None => FreeRunStep::Found(FreeDirectoryEntries { start_index: run_start, reached_end: true }),
        Some(b) => if b == 0 {
            FreeRunStep::Found(FreeDirectoryEntries { start_index: run_start, reached_end: true })
        } else if b == 0xe5 {
            if length + 1 == count {
                FreeRunStep::Found(FreeDirectoryEntries { start_index: run_start, reached_end: false })
            } else {
                FreeRunStep::Continue(run_start, (length + 1) as u32)
            }
        } else {
            FreeRunStep::Continue(start, 0)
        },
    }
}

/// Takes one step of a free-entry search.
pub fn free_run_step(start: u32, length: u32, index: u32, first_byte: Option<u8>, count: u32) -> (r:
    FreeRunStep)
    requires
        length < count,
    ensures
        r == spec_free_run_step(start, length, index, first_byte, count),
{
    let run_start = if length == 0 {
        index
    } else {
        start
    };
    match first_byte {
        None => FreeRunStep::Found(FreeDirectoryEntries { start_index: run_start, reached_end: true }),
        Some(b) => {
            if b == 0 {
                FreeRunStep::Found(FreeDirectoryEntries { start_index: run_start, reached_end: true })
            } else if b == 0xe5 {
                if length + 1 == count {
                    FreeRunStep::Found(
                        FreeDirectoryEntries { start_index: run_start, reached_end: false },
                    )
                } else {
                    FreeRunStep::Continue(run_start, length + 1)
                }
            } else {
                FreeRunStep::Continue(start, 0)
            }
        },
    }
}

/// Whether entries `start_index .. start_index + count` fit in a fixed root directory of
/// `root_entry_count` entries.
pub open spec fn spec_fits_fixed_root(root_entry_count: u16, start_index: u32, count: u32) -> bool {
    start_index + count <= root_entry_count
}

fn fits_fixed_root(root_entry_count: u16, start_index: u32, count: u32) -> (r: bool)
    ensures
        r == spec_fits_fixed_root(root_entry_count, start_index, count),
{
    match start_index.checked_add(count) {
        Some(end) => end <= root_entry_count as u32,
        None => false,
    }
}

/// Whether a directory entry is a live short entry with the given name.
pub open spec fn spec_is_live_short_named(entry: RawDirEntry, name: ShortName) -> bool {
    !entry.spec_is_deleted() && !entry.spec_is_lfn() && entry.0@.subrange(0, 11) == name.0@
}

fn is_live_short_named(entry: &RawDirEntry, name: &ShortName) -> (r: bool)
    ensures
        r == spec_is_live_short_named(*entry, *name),
{
    if entry.is_deleted() || entry.is_lfn() {
        return false;
    }
    let mut i: usize = 0;
    while i < 11
        invariant
            i <= 11,
            forall|j: int| 0 <= j < i ==> entry.0@[j] == name.0@[j],
        decreases 11 - i,
    {
        if entry.0[i] != name.0[i] {
            assert(entry.0@.subrange(0, 11)[i as int] != name.0@[i as int]);
            return false;
        }
        i = i + 1;
    }
    assert(entry.0@.subrange(0, 11) == name.0@);
    true
}

/// The 13 code units that the long-name entry with `ordinal` (counted from 1) holds of a name
/// of `length` code units: its part of the name, then a 0 terminator if the name ends inside
/// the entry, then `0xFFFF` padding.
pub open spec fn spec_lfn_part(units: Seq<u16>, length: int, ordinal: int) -> Seq<u16> {
    Seq::new(
        13,
        |k: int|
            {
                let i = (ordinal - 1) * 13 + k;
                if i < length {
                    units[i]
                } else if i == length {
                    0u16
                } else {
                    0xffffu16
                }
            },
    )
}

fn lfn_part(units: &[u16; 255], length: usize, ordinal: usize) -> (r: [u16; 13])
    requires
        1 <= ordinal <= 20,
        length <= 255,
    ensures
        r@ == spec_lfn_part(units@, length as int, ordinal as int),
{
    let start = (ordinal - 1) * 13;
    let mut characters = [0xffffu16; 13];
    let mut k: usize = 0;
    while k < 13
        invariant
            k <= 13,
            1 <= ordinal <= 20,
            length <= 255,
            start == (ordinal - 1) * 13,
            start <= 19 * 13,
            characters@.len() == 13,
            forall|j: int| 0 <= j < k ==> characters@[j] == spec_lfn_part(
                units@,
                length as int,
                ordinal as int,
            )[j],
        decreases 13 - k,
    {
        let i = start + k;
        characters[k] = if i < length {
            units[i]
        } else if i == length {
            0
        } else {
            0xffff
        };
        k = k + 1;
    }
    assert(characters@ == spec_lfn_part(units@, length as int, ordinal as int));
    characters
}

/// The number of long-name entries for a name of `length` UTF-16 code units.
pub open spec fn spec_lfn_count(length: int) -> int {
    spec_div_ceil(length, 13)
}

fn lfn_count_for(length: usize) -> (r: usize)
    requires
        length <= 255,
    ensures
        r == spec_lfn_count(length as int),
        r <= 20,
        r > 0 ==> (r - 1) * 13 < length,
{
    let r = length / 13 + if length % 13 == 0 {
        0
    } else {
        1
    };
    assert(r <= 20 && (r > 0 ==> (r - 1) * 13 < length)) by (nonlinear_arith)
        requires
            length <= 255,
            r == length / 13 + if length % 13 == 0 {
                0int
            } else {
                1int
            },
    ;
    r
}

/// An entry's bytes with its name field replaced.
pub open spec fn spec_with_short_name(raw: Seq<u8>, name: Seq<u8>) -> Seq<u8> {
    Seq::new(32, |i: int| if i < 11 { name[i] } else { raw[i] })
}

fn with_short_name(template: RawDirEntry, name: &ShortName) -> (r: RawDirEntry)
    ensures
        r.0@ == spec_with_short_name(template.0@, name.0@),
{
    let mut raw = template.0;
    let mut i: usize = 0;
    while i < 11
        invariant
            i <= 11,
            raw@.len() == 32,
            forall|j: int| 0 <= j < i ==> raw@[j] == name.0@[j],
            forall|j: int| 11 <= j < 32 ==> raw@[j] == template.0@[j],
        decreases 11 - i,
    {
        raw[i] = name.0[i];
        i = i + 1;
    }
    assert(raw@ == spec_with_short_name(template.0@, name.0@));
    RawDirEntry(raw)
}

/// The first-cluster number that a `..` entry records for a parent directory: 0 for the root
/// directory, the cluster number otherwise.
pub open spec fn spec_parent_reference(volume: Volume, parent: DirectoryLocation) -> u32 {
    match parent {
        DirectoryLocation::FixedRoot => 0,
        DirectoryLocation::Cluster(c) => if volume.fat_type == FatType::Fat32 && c.spec_get()
            == volume.bpb.root_cluster {
            0
        } else {
            c.spec_get()
        },
    }
}

fn parent_reference(volume: &Volume, parent: DirectoryLocation) -> (r: u32)
    ensures
        r == spec_parent_reference(*volume, parent),
{
    match parent {
        DirectoryLocation::FixedRoot => 0,
        DirectoryLocation::Cluster(c) => {
            if volume.fat_type == FatType::Fat32 && c.get() == volume.bpb.root_cluster {
                0
            } else {
                c.get()
            }
        },
    }
}

/// A directory entry named `name`, with the directory attribute and the given first cluster.
pub open spec fn spec_directory_entry(name: Seq<u8>, fat_type: FatType, cluster: u32) -> Seq<u8> {
    RawDirEntry::spec_with_first_cluster(
        Seq::new(32, |i: int| if i < 11 { name[i] } else if i == 11 { 0x10u8 } else { 0u8 }),
        fat_type,
        Some(cluster),
    )
}

fn directory_entry(name: [u8; 11], fat_type: FatType, cluster: u32) -> (r: RawDirEntry)
    ensures
        r.0@ == spec_directory_entry(name@, fat_type, cluster),
{
    let short = ShortName(name);
    let mut entry = RawDirEntry::new(short, RawDirEntry::ATTR_DIRECTORY);
    assert(entry.0@ == Seq::new(
        32,
        |i: int| if i < 11 { name@[i] } else if i == 11 { 0x10u8 } else { 0u8 },
    ));
    entry.set_first_cluster(fat_type, Some(cluster));
    entry
}

/// Whether two directory locations are the same.
fn same_location(a: DirectoryLocation, b: DirectoryLocation) -> (r: bool)
    ensures
        r == (a == b),
{
    match (a, b) {
        (DirectoryLocation::FixedRoot, DirectoryLocation::FixedRoot) => true,
        (DirectoryLocation::Cluster(x), DirectoryLocation::Cluster(y)) => {
            proof {
                lemma_cluster_eq(x, y);
            }
            x.get() == y.get()
        },
        _ => false,
    }
}

/// An entry marked deleted.
fn marked_deleted(entry: RawDirEntry) -> (r: RawDirEntry)
    ensures
        r.0@ == entry.0@.update(0, 0xe5),
        r.spec_is_deleted(),
{
    let mut raw = entry.0;
    raw[0] = 0xe5;
    RawDirEntry(raw)
}

/// Whether a `..` entry: the name `..` padded with spaces.
pub open spec fn spec_is_dot_dot_entry(entry: RawDirEntry) -> bool {
    entry.0@.subrange(0, 11) == seq![0x2eu8, 0x2e, 0x20, 0x20, 0x20, 0x20, 0x20, 0x20, 0x20, 0x20, 0x20]
}

fn is_dot_dot_entry(entry: &RawDirEntry) -> (r: bool)
    ensures
        r == spec_is_dot_dot_entry(*entry),
{
    let mut i: usize = 2;
    let dots = entry.0[0] == 0x2e && entry.0[1] == 0x2e;
    if !dots {
        assert(!spec_is_dot_dot_entry(*entry)) by {
            if spec_is_dot_dot_entry(*entry) {
                assert(entry.0@.subrange(0, 11)[0] == 0x2e);
                assert(entry.0@.subrange(0, 11)[1] == 0x2e);
            }
        }
        return false;
    }
    while i < 11
        invariant
            2 <= i <= 11,
            entry.0@[0] == 0x2e && entry.0@[1] == 0x2e,
            forall|j: int| 2 <= j < i ==> entry.0@[j] == 0x20,
        decreases 11 - i,
    {
        if entry.0[i] != 0x20 {
            assert(!spec_is_dot_dot_entry(*entry)) by {
                if spec_is_dot_dot_entry(*entry) {
                    assert(entry.0@.subrange(0, 11)[i as int] == 0x20);
                }
            }
            return false;
        }
        i = i + 1;
    }
    assert(entry.0@.subrange(0, 11) == seq![0x2eu8, 0x2e, 0x20, 0x20, 0x20, 0x20, 0x20, 0x20, 0x20, 0x20, 0x20]);
    true
}

/// The errors of a path lookup.
pub open spec fn spec_lookup_error<E>(e: Error<E>) -> bool {
    e is Io || e is OutOfBounds || e is CorruptChain || e is NotFound || e is InvalidPath
        || e is NotADirectory
}

/// The errors that writing to a directory can give.
pub open spec fn spec_directory_write_error<E>(e: Error<E>) -> bool {
    e is Io || e is OutOfBounds || e is CorruptChain || e is NoSpace || e is DirectoryFull
        || e == Error::<E>::InvalidFormat(FormatError::InvalidFatEntry)
}

/// Provides directory-entry updates and file creation.
pub trait DirectoryWrite: DirectoryAccess + AllocationAccess {
    /// Writes bytes at an offset within a directory.
    ///
    /// The fixed root directory cannot grow: a write past its sectors is `DirectoryFull`. A
    /// cluster-chain directory is first extended to cover the written range.
    fn write_directory_at(&mut self, directory: DirectoryLocation, offset: u64, data: &[u8]) -> (r:
        Result<(), Error<Self::Error>>)
        ensures
            data@.len() == 0 ==> r is Ok,
            data@.len() > 0 && offset + data@.len() > u64::MAX ==> r == Err::<
                (),
                Error<Self::Error>,
            >(Error::OutOfBounds),
            r matches Err(e) ==> spec_directory_write_error(e),
    {
        if data.len() == 0 {
            return Ok(());
        }
        let end = match offset.checked_add(data.len() as u64) {
            Some(e) => e,
            None => return Err(Error::OutOfBounds),
        };
        match directory {
            DirectoryLocation::FixedRoot => {
                let volume = *self.volume();
                assert(volume.root_directory_sectors * volume.bpb.bytes_per_sector <= 0xffff_ffff
                    * 0xffff) by (nonlinear_arith)
                    requires
                        volume.root_directory_sectors <= 0xffff_ffff,
                        volume.bpb.bytes_per_sector <= 0xffff,
                ;
                let capacity = volume.root_directory_sectors as u64 * volume.sector_size() as u64;
                if end > capacity {
                    return Err(Error::DirectoryFull);
                }
                let root_start = volume.sector_byte_offset(volume.root_directory_start_sector);
                assert(volume.root_directory_start_sector * volume.bpb.bytes_per_sector
                    <= 0xffff_ffff * 0xffff) by (nonlinear_arith)
                    requires
                        volume.root_directory_start_sector <= 0xffff_ffff,
                        volume.bpb.bytes_per_sector <= 0xffff,
                ;
                let start = root_start + offset;
                match self.write_volume_at(start, data) {
                    Ok(()) => Ok(()),
                    Err(e) => Err(e),
                }
            },
            DirectoryLocation::Cluster(first) => {
                let cluster_size = self.volume().cluster_size();
                if cluster_size == 0 {
                    return Err(Error::OutOfBounds);
                }
                let required = match clusters_for(end, cluster_size) {
                    Some(n) => n,
                    None => return Err(Error::OutOfBounds),
                };
                let mut chain = Some(first);
                if let Err(e) = self.ensure_chain_length(&mut chain, required) {
                    return Err(e);
                }
                let written = match self.write_chain_at(first, offset, data) {
                    Ok(n) => n,
                    Err(e) => return Err(e),
                };
                if written != data.len() {
                    return Err(Error::CorruptChain);
                }
                Ok(())
            },
        }
    }

    /// Writes one 32-byte directory entry at its location.
    fn write_directory_entry(&mut self, location: DirectoryEntryLocation, entry: RawDirEntry) -> (r:
        Result<(), Error<Self::Error>>)
        ensures
            r matches Err(e) ==> spec_directory_write_error(e),
    {
        let bytes = entry.serialize();
        self.write_directory_at(location.directory, location.index as u64 * 32, bytes.as_slice())
    }

    /// Reads the directory entry at a location; past the end of the directory it is `NotFound`.
    fn read_directory_entry_at(&mut self, location: DirectoryEntryLocation) -> (r: Result<
        RawDirEntry,
        Error<Self::Error>,
    >)
        ensures
            r matches Ok(e) ==> !e.spec_is_end(),
            r matches Err(e) ==> (e is Io || e is OutOfBounds || e is CorruptChain || e is NotFound),
    {
        let directory: Self::DirectoryHandle = DirectoryInfo { location: location.directory }.into();
        match self.read_directory_entry(&directory, location.index) {
            Ok(Some(entry)) => Ok(entry),
            Ok(None) => Err(Error::NotFound),
            Err(e) => Err(e),
        }
    }

    /// Finds `count` consecutive free entries in a directory.
    ///
    /// Deleted entries are reused when `count` of them follow each other. Otherwise the run
    /// starts at the last deleted entries before the end-of-directory marker (or at the marker)
    /// and continues past it; a fixed root directory without room for it is `DirectoryFull`.
    /// Asking for no entry is `OutOfBounds`.
    fn find_free_directory_entries(&mut self, directory: &Self::DirectoryHandle, count: u32) -> (r:
        Result<FreeDirectoryEntries, Error<Self::Error>>)
        ensures
            count == 0 ==> r == Err::<FreeDirectoryEntries, Error<Self::Error>>(
                Error::OutOfBounds,
            ),
            r matches Err(e) ==> (e is Io || e is OutOfBounds || e is CorruptChain
                || e is DirectoryFull),
    {
        if count == 0 {
            return Err(Error::OutOfBounds);
        }
        let mut index: u32 = 0;
        let mut run_start: u32 = 0;
        let mut run_length: u32 = 0;
        loop
            invariant
                0 < count,
                run_length < count,
            decreases u32::MAX - index,
        {
            let mut bytes = [0u8; DIRECTORY_ENTRY_SIZE];
            let read = {
                let buf: &mut [u8] = &mut bytes;
                match self.read_directory_at(directory, index as u64 * 32, buf) {
                    Ok(n) => n,
                    Err(e) => return Err(e),
                }
            };
            let first_byte = if read == 0 {
                None
            } else {
                Some(bytes[0])
            };
            match free_run_step(run_start, run_length, index, first_byte, count) {
                FreeRunStep::Found(found) => {
                    if found.reached_end {
                        if let Err(e) = self.check_directory_capacity(
                            directory,
                            found.start_index,
                            count,
                        ) {
                            return Err(e);
                        }
                    }
                    return Ok(found);
                },
                FreeRunStep::Continue(start, length) => {
                    run_start = start;
                    run_length = length;
                },
            }
            index = match index.checked_add(1) {
                Some(i) => i,
                None => return Err(Error::DirectoryFull),
            };
        }
    }

    /// Checks that a fixed root directory has room for `count` entries from `start_index`; a
    /// cluster-chain directory always has.
    fn check_directory_capacity(&self, directory: &Self::DirectoryHandle, start_index: u32, count: u32) -> (r:
        Result<(), Error<Self::Error>>)
        ensures
            r is Ok || r == Err::<(), Error<Self::Error>>(Error::DirectoryFull),
    {
        let root_entry_count = self.volume().bpb.root_entry_count;
        if matches!(directory.directory_info().location, DirectoryLocation::FixedRoot) && !fits_fixed_root(
            root_entry_count,
            start_index,
            count,
        ) {
            return Err(Error::DirectoryFull);
        }
        Ok(())
    }

    /// Whether a live short entry of the directory carries `name`.
    fn short_name_exists(&mut self, directory: &Self::DirectoryHandle, name: ShortName) -> (r:
        Result<bool, Error<Self::Error>>)
        ensures
            r matches Err(e) ==> (e is Io || e is OutOfBounds || e is CorruptChain
                || e is DirectoryFull),
    {
        let mut index: u32 = 0;
        loop
            decreases u32::MAX - index,
        {
            let entry = match self.read_directory_entry(directory, index) {
                Ok(Some(e)) => e,
                Ok(None) => return Ok(false),
                Err(e) => return Err(e),
            };
            if is_live_short_named(&entry, &name) {
                return Ok(true);
            }
            index = match index.checked_add(1) {
                Some(i) => i,
                None => return Err(Error::DirectoryFull),
            };
        }
    }

    /// Opens the parent directory of a path and returns it with the last component.
    ///
    /// Leading slashes are ignored. A path that is then empty or ends with a slash is
    /// `InvalidPath`; the last component must be a valid FAT name.
    fn open_parent_directory<'a>(&mut self, path: &'a str) -> (r: Result<
        (Self::DirectoryHandle, &'a str),
        Error<Self::Error>,
    >)
        ensures
            spec_split_parent(path.spec_bytes()) is None ==> r matches Err(Error::InvalidPath),
            spec_split_parent(path.spec_bytes()) matches Some((_, name)) && spec_invalid_name(name)
                ==> r matches Err(Error::InvalidName),
            r matches Ok((_, name)) ==> {
                &&& spec_split_parent(path.spec_bytes()) matches Some((_, n))
                &&& name.spec_bytes() == n
                &&& !spec_invalid_name(n)
                &&& spec_utf16(name@).len() <= 255
            },
            r matches Err(e) ==> (e is Io || e is OutOfBounds || e is CorruptChain || e is NotFound
                || e is InvalidPath || e is NotADirectory || e is InvalidName || e is NameTooLong),
    {
        let bytes = path.as_bytes();
        let (start, slash) = match split_parent(bytes) {
            Some(parts) => parts,
            None => return Err(Error::InvalidPath),
        };
        let len = bytes.len();
        let name_start = match slash {
            Some(i) => i + 1,
            None => start,
        };
        let name = component_str(path, name_start, len);
        if let Err(e) = validate_name::<Self::Error>(name) {
            return Err(e);
        }
        let directory = match slash {
            Some(i) => {
                if i == start {
                    self.root_directory()
                } else {
                    let parent = component_str(path, start, i);
                    match self.open_directory(parent) {
                        Ok(d) => d,
                        Err(e) => return Err(e),
                    }
                }
            },
            None => self.root_directory(),
        };
        Ok((directory, name))
    }

    /// Chooses the short name for a new entry and whether it needs long-name entries.
    ///
    /// A name that is already a free upper-case 8.3 name is used as it is; otherwise the first
    /// free alias `BASE~N.EXT` with `N` from 1 to 999999 is used, with long-name entries. When
    /// all are taken the directory is `DirectoryFull`.
    fn select_short_name(&mut self, directory: &Self::DirectoryHandle, name: &str) -> (r: Result<
        (ShortName, bool),
        Error<Self::Error>,
    >)
        ensures
            r matches Ok((s, false)) ==> spec_canonical_short_name(name.spec_bytes()) == Some(s.0@),
            r matches Ok((s, true)) ==> exists|ordinal: nat|
                1 <= ordinal <= 999_999 && s.0@ == #[trigger] spec_short_alias(name@, ordinal),
            r matches Err(e) ==> (e is Io || e is OutOfBounds || e is CorruptChain
                || e is DirectoryFull),
    {
        if let Some(short) = canonical_short_name(name) {
            match self.short_name_exists(directory, short) {
                Ok(false) => return Ok((short, false)),
                Ok(true) => {},
                Err(e) => return Err(e),
            }
        }
        let mut ordinal: u32 = 1;
        while ordinal <= 999_999
            invariant
                1 <= ordinal <= 1_000_000,
            decreases 1_000_000 - ordinal,
        {
            let alias = short_alias(name, ordinal);
            match self.short_name_exists(directory, alias) {
                Ok(false) => {
                    assert(alias.0@ == spec_short_alias(name@, ordinal as nat));
                    return Ok((alias, true));
                },
                Ok(true) => {},
                Err(e) => return Err(e),
            }
            ordinal = ordinal + 1;
        }
        Err(Error::DirectoryFull)
    }

    /// Writes the entries for a new name in a directory and returns the short entry's location.
    ///
    /// Long-name entries come first when the name needs an alias; the short entry is `template`
    /// under the chosen short name. When the entries were placed at the end of the directory, a
    /// new end-of-directory marker follows them if the directory has room for it.
    fn create_entry(&mut self, directory: &Self::DirectoryHandle, name: &str, template: RawDirEntry) -> (r:
        Result<DirectoryEntryLocation, Error<Self::Error>>)
        ensures
            r matches Err(e) ==> (spec_directory_write_error(e) || e is NameTooLong),
    {
        let (short_name, needs_lfn) = match self.select_short_name(directory, name) {
            Ok(choice) => choice,
            Err(e) => return Err(e),
        };
        let mut units = [0u16; 255];
        let length = match encode_name::<Self::Error>(name, &mut units) {
            Ok(n) => n,
            Err(e) => return Err(e),
        };
        let lfn_count = if needs_lfn {
            lfn_count_for(length)
        } else {
            0
        };
        let slots = match self.find_free_directory_entries(directory, (lfn_count + 1) as u32) {
            Ok(f) => f,
            Err(e) => return Err(e),
        };
        let location = directory.directory_info().location;
        let checksum = short_name.checksum();
        let mut disk_index: usize = 0;
        while disk_index < lfn_count
            invariant
                lfn_count <= 20,
                lfn_count > 0 ==> (lfn_count - 1) * 13 < length,
                length <= 255,
            decreases lfn_count - disk_index,
        {
            let ordinal = lfn_count - disk_index;
            let lfn = LfnEntry {
                ordinal: ordinal as u8,
                is_last: ordinal == lfn_count,
                checksum,
                characters: lfn_part(&units, length, ordinal),
            };
            let entry = match lfn.serialize() {
                Ok(e) => e,
                Err(e) => return Err(Error::InvalidFormat(e)),
            };
            let index = match slots.start_index.checked_add(disk_index as u32) {
                Some(i) => i,
                None => return Err(Error::DirectoryFull),
            };
            if let Err(e) = self.write_directory_entry(
                DirectoryEntryLocation { directory: location, index },
                entry,
            ) {
                return Err(e);
            }
            disk_index = disk_index + 1;
        }
        let short_index = match slots.start_index.checked_add(lfn_count as u32) {
            Some(i) => i,
            None => return Err(Error::DirectoryFull),
        };
        let short_location = DirectoryEntryLocation { directory: location, index: short_index };
        if let Err(e) = self.write_directory_entry(
            short_location,
            with_short_name(template, &short_name),
        ) {
            return Err(e);
        }
        if slots.reached_end {
            if let Some(next) = short_index.checked_add(1) {
                if self.check_directory_capacity(directory, next, 1).is_ok() {
                    if let Err(e) = self.write_directory_entry(
                        DirectoryEntryLocation { directory: location, index: next },
                        RawDirEntry([0u8; DIRECTORY_ENTRY_SIZE]),
                    ) {
                        return Err(e);
                    }
                }
            }
        }
        Ok(short_location)
    }

    /// Creates an empty file and returns its handle.
    ///
    /// The name gets long-name entries unless it is already a free upper-case 8.3 name. An
    /// existing entry of that name is `AlreadyExists`.
    fn create_file(&mut self, path: &str) -> (r: Result<Self::FileHandle, Error<Self::Error>>) where
        Self: FileAccess,

        ensures
            spec_split_parent(path.spec_bytes()) is None ==> r matches Err(Error::InvalidPath),
            spec_split_parent(path.spec_bytes()) matches Some((_, name)) && spec_invalid_name(name)
                ==> r matches Err(Error::InvalidName),
            r matches Err(e) ==> (spec_directory_write_error(e) || e is NotFound || e is InvalidPath
                || e is NotADirectory || e is InvalidName || e is NameTooLong
                || e is AlreadyExists),
            r matches Ok(h) ==> (<Self::FileHandle as FromSpec<FileInfo>>::obeys_from_spec()
                ==> exists|entry: DirectoryEntryLocation|
                h == #[trigger] <Self::FileHandle as FromSpec<FileInfo>>::from_spec(
                    FileInfo { first_cluster: None, length: 0, attributes: 0x20, entry },
                )),
    {
        let (directory, name) = match self.open_parent_directory(path) {
            Ok(parts) => parts,
            Err(e) => return Err(e),
        };
        match self.find_entry(&directory, name) {
            Ok(_) => return Err(Error::AlreadyExists),
            Err(Error::NotFound) => {},
            Err(e) => return Err(e),
        }
        let template = RawDirEntry::new(ShortName(blank_name()), 0x20);
        let location = match self.create_entry(&directory, name, template) {
            Ok(l) => l,
            Err(e) => return Err(e),
        };
        Ok(FileInfo { first_cluster: None, length: 0, attributes: 0x20, entry: location }.into())
    }

    /// Marks an entry and its long-name entries deleted.
    fn delete_entry(&mut self, entry: &FoundEntry) -> (r: Result<(), Error<Self::Error>>)
        ensures
            r matches Err(e) ==> (spec_directory_write_error(e) || e is NotFound),
    {
        let last = entry.location.index;
        let mut index = match entry.lfn_start_index {
            Some(start) => if start <= last {
                start
            } else {
                last
            },
            None => last,
        };
        loop
            invariant
                index <= last,
            decreases last - index,
        {
            let location = DirectoryEntryLocation { directory: entry.location.directory, index };
            let raw = match self.read_directory_entry_at(location) {
                Ok(e) => e,
                Err(e) => return Err(e),
            };
            if let Err(e) = self.write_directory_entry(location, marked_deleted(raw)) {
                return Err(e);
            }
            if index == last {
                return Ok(());
            }
            index = index + 1;
        }
    }

    /// Creates an empty directory and returns its handle.
    ///
    /// The directory gets a cleared cluster holding its `.` and `..` entries; `..` records 0
    /// when the parent is the root directory. An existing entry of that name is `AlreadyExists`.
    fn create_directory(&mut self, path: &str) -> (r: Result<Self::DirectoryHandle, Error<Self::Error>>)
        ensures
            spec_split_parent(path.spec_bytes()) is None ==> r matches Err(Error::InvalidPath),
            spec_split_parent(path.spec_bytes()) matches Some((_, name)) && spec_invalid_name(name)
                ==> r matches Err(Error::InvalidName),
            r matches Err(e) ==> (spec_directory_write_error(e) || spec_lookup_error(e)
                || e is InvalidName || e is NameTooLong || e is AlreadyExists),
            r matches Ok(h) ==> (<Self::DirectoryHandle as FromSpec<DirectoryInfo>>::obeys_from_spec()
                ==> exists|c: Cluster|
                h == #[trigger] <Self::DirectoryHandle as FromSpec<DirectoryInfo>>::from_spec(
                    DirectoryInfo { location: DirectoryLocation::Cluster(c) },
                )),
    {
        let (parent, name) = match self.open_parent_directory(path) {
            Ok(parts) => parts,
            Err(e) => return Err(e),
        };
        match self.find_entry(&parent, name) {
            Ok(_) => return Err(Error::AlreadyExists),
            Err(Error::NotFound) => {},
            Err(e) => return Err(e),
        }
        let volume = *self.volume();
        let parent_cluster = parent_reference(&volume, parent.directory_info().location);
        let cluster = match self.allocate_cluster(None) {
            Ok(c) => c,
            Err(e) => return Err(e),
        };
        let location = DirectoryLocation::Cluster(cluster);
        let dot = directory_entry(
            [0x2e, 0x20, 0x20, 0x20, 0x20, 0x20, 0x20, 0x20, 0x20, 0x20, 0x20],
            volume.fat_type,
            cluster.get(),
        );
        if let Err(e) = self.write_directory_entry(
            DirectoryEntryLocation { directory: location, index: 0 },
            dot,
        ) {
            return Err(e);
        }
        let dot_dot = directory_entry(
            [0x2e, 0x2e, 0x20, 0x20, 0x20, 0x20, 0x20, 0x20, 0x20, 0x20, 0x20],
            volume.fat_type,
            parent_cluster,
        );
        if let Err(e) = self.write_directory_entry(
            DirectoryEntryLocation { directory: location, index: 1 },
            dot_dot,
        ) {
            return Err(e);
        }
        let template = directory_entry(blank_name(), volume.fat_type, cluster.get());
        if let Err(e) = self.create_entry(&parent, name, template) {
            return Err(e);
        }
        Ok(DirectoryInfo { location }.into())
    }

    /// Removes a file: its entries are marked deleted, then its clusters are freed.
    ///
    /// A directory or volume label is `NotAFile`; a read-only file is `ReadOnly`.
    fn remove_file(&mut self, path: &str) -> (r: Result<(), Error<Self::Error>>)
        ensures
            spec_path_components(path.spec_bytes()).len() == 0 ==> r matches Err(Error::InvalidPath),
            r matches Err(e) ==> (spec_directory_write_error(e) || spec_lookup_error(e)
                || e is NotAFile || e is ReadOnly),
    {
        let entry = match self.find_entry_by_path(path) {
            Ok(f) => f,
            Err(e) => return Err(e),
        };
        if entry.raw.is_directory() || entry.raw.is_volume_label() {
            return Err(Error::NotAFile);
        }
        if entry.raw.attributes() & RawDirEntry::ATTR_READ_ONLY != 0 {
            return Err(Error::ReadOnly);
        }
        let volume = *self.volume();
        let first = entry_first_cluster(&volume, &entry.raw);
        if let Err(e) = self.delete_entry(&entry) {
            return Err(e);
        }
        if let Some(cluster) = Cluster::new(first) {
            if let Err(e) = self.free_chain(cluster) {
                return Err(e);
            }
        }
        Ok(())
    }

    /// Removes an empty directory: its entry is marked deleted, then its clusters are freed.
    ///
    /// A directory holding anything but `.` and `..` is `NotEmpty`; a file is `NotADirectory`;
    /// `.` and `..` cannot be removed (`InvalidPath`).
    fn remove_directory(&mut self, path: &str) -> (r: Result<(), Error<Self::Error>>)
        ensures
            spec_path_components(path.spec_bytes()).len() == 0 ==> r matches Err(Error::InvalidPath),
            r matches Err(e) ==> (spec_directory_write_error(e) || spec_lookup_error(e)
                || e is NotEmpty),
    {
        let entry = match self.find_entry_by_path(path) {
            Ok(f) => f,
            Err(e) => return Err(e),
        };
        if !entry.raw.is_directory() {
            return Err(Error::NotADirectory);
        }
        if entry.raw.0[0] == 0x2e {
            return Err(Error::InvalidPath);
        }
        let volume = *self.volume();
        let location = match directory_location::<Self::Error>(&volume, &entry.raw) {
            Ok(l) => l,
            Err(e) => return Err(e),
        };
        let handle: Self::DirectoryHandle = DirectoryInfo { location }.into();
        let mut index: u32 = 0;
        loop
            invariant
                spec_path_components(path.spec_bytes()).len() > 0,
            decreases u32::MAX - index,
        {
            match self.read_directory_entry(&handle, index) {
                Ok(None) => break,
                Ok(Some(e)) => {
                    if !e.is_deleted() && e.0[0] != 0x2e {
                        return Err(Error::NotEmpty);
                    }
                },
                Err(e) => return Err(e),
            }
            index = match index.checked_add(1) {
                Some(i) => i,
                None => return Err(Error::OutOfBounds),
            };
        }
        if let Err(e) = self.delete_entry(&entry) {
            return Err(e);
        }
        if let DirectoryLocation::Cluster(cluster) = location {
            if let Err(e) = self.free_chain(cluster) {
                return Err(e);
            }
        }
        Ok(())
    }

    /// Refuses to move a directory into itself or below itself: the parents of `target` are
    /// followed through their `..` entries up to the root.
    fn check_not_within(&mut self, moved: DirectoryLocation, target: DirectoryLocation) -> (r: Result<
        (),
        Error<Self::Error>,
    >)
        ensures
            moved == target ==> r matches Err(Error::InvalidPath),
            r matches Err(e) ==> (e is Io || e is OutOfBounds || e is CorruptChain
                || e is InvalidPath),
    {
        let volume = *self.volume();
        let limit = volume.cluster_count as u64;
        let mut current = target;
        let mut steps: u64 = 0;
        while steps <= limit
            invariant
                steps == 0 ==> current == target,
                moved == target ==> steps == 0,
                limit <= u32::MAX,
            decreases limit + 1 - steps,
        {
            if same_location(current, moved) {
                return Err(Error::InvalidPath);
            }
            let cluster = match current {
                DirectoryLocation::FixedRoot => return Ok(()),
                DirectoryLocation::Cluster(c) => c,
            };
            if volume.fat_type == FatType::Fat32 && cluster.get() == volume.bpb.root_cluster {
                return Ok(());
            }
            let handle: Self::DirectoryHandle = DirectoryInfo { location: current }.into();
            let dot_dot = match self.read_directory_entry(&handle, 1) {
                Ok(Some(e)) => e,
                Ok(None) => return Err(Error::CorruptChain),
                Err(e) => return Err(e),
            };
            if !is_dot_dot_entry(&dot_dot) {
                return Err(Error::CorruptChain);
            }
            current = match directory_location::<Self::Error>(&volume, &dot_dot) {
                Ok(l) => l,
                Err(e) => return Err(e),
            };
            steps = steps + 1;
        }
        Err(Error::CorruptChain)
    }

    /// Moves or renames a file or directory.
    ///
    /// The new entries are written before the old ones are marked deleted. A directory that
    /// moves to another parent gets its `..` entry updated; moving it into itself or below
    /// itself is `InvalidPath`, as is renaming `.` or `..`. An existing entry at the destination
    /// is `AlreadyExists`.
    fn rename(&mut self, from: &str, to: &str) -> (r: Result<(), Error<Self::Error>>)
        ensures
            spec_path_components(from.spec_bytes()).len() == 0 ==> r matches Err(Error::InvalidPath),
            r matches Err(e) ==> (spec_directory_write_error(e) || spec_lookup_error(e)
                || e is InvalidName || e is NameTooLong || e is AlreadyExists),
    {
        let source = match self.find_entry_by_path(from) {
            Ok(f) => f,
            Err(e) => return Err(e),
        };
        if source.raw.0[0] == 0x2e {
            return Err(Error::InvalidPath);
        }
        let (parent, name) = match self.open_parent_directory(to) {
            Ok(parts) => parts,
            Err(e) => return Err(e),
        };
        match self.find_entry(&parent, name) {
            Ok(_) => return Err(Error::AlreadyExists),
            Err(Error::NotFound) => {},
            Err(e) => return Err(e),
        }
        let volume = *self.volume();
        let parent_location = parent.directory_info().location;
        let is_directory = source.raw.is_directory();
        let mut moved = DirectoryLocation::FixedRoot;
        if is_directory {
            moved = match directory_location::<Self::Error>(&volume, &source.raw) {
                Ok(l) => l,
                Err(e) => return Err(e),
            };
            if let Err(e) = self.check_not_within(moved, parent_location) {
                return Err(e);
            }
        }
        if let Err(e) = self.create_entry(&parent, name, source.raw) {
            return Err(e);
        }
        if let Err(e) = self.delete_entry(&source) {
            return Err(e);
        }
        if is_directory && !same_location(parent_location, source.location.directory) {
            let dot_dot_location = DirectoryEntryLocation { directory: moved, index: 1 };
            let mut dot_dot = match self.read_directory_entry_at(dot_dot_location) {
                Ok(e) => e,
                Err(e) => return Err(e),
            };
            if !is_dot_dot_entry(&dot_dot) {
                return Err(Error::CorruptChain);
            }
            let ghost before = dot_dot;
            dot_dot.set_first_cluster(volume.fat_type, Some(parent_reference(&volume, parent_location)));
            proof {
                if volume.spec_well_formed() && spec_directory_on_volume(volume, parent_location) {
                    lemma_moved_dot_dot_leads_to_parent(volume, before, dot_dot, parent_location);
                }
            }
            assert(volume.spec_well_formed() && spec_directory_on_volume(volume, parent_location)
                ==> spec_directory_location(volume, dot_dot) == Some(parent_location));
            if let Err(e) = self.write_directory_entry(dot_dot_location, dot_dot) {
                return Err(e);
            }
        }
        Ok(())
    }
}

// ---------------------------------------------------------------------------
// File writes
// ---------------------------------------------------------------------------

/// The first-cluster number that a directory entry records for a file: 0 for an empty chain.
pub open spec fn spec_recorded_cluster(first_cluster: Option<Cluster>) -> Option<u32> {
    match first_cluster {
        Some(c) => Some(c.spec_get()),
        None => None,
    }
}

/// A directory entry updated with a file's first cluster and length; a length that does not fit
/// the 32-bit size field is `OutOfBounds`.
pub open spec fn spec_entry_with_info(entry: Seq<u8>, fat_type: FatType, info: FileInfo) -> Option<
    Seq<u8>,
> {
    if info.length > u32::MAX {
        None
    } else {
        Some(
            spec_put32(
                RawDirEntry::spec_with_first_cluster(
                    entry,
                    fat_type,
                    spec_recorded_cluster(info.first_cluster),
                ),
                28,
                info.length as u32,
            ),
        )
    }
}

pub fn entry_with_info<E>(entry: RawDirEntry, fat_type: FatType, info: &FileInfo) -> (r: Result<
    RawDirEntry,
    Error<E>,
>)
    ensures
        match spec_entry_with_info(entry.0@, fat_type, *info) {
            Some(bytes) => r matches Ok(e) && e.0@ == bytes,
            None => r == Err::<RawDirEntry, Error<E>>(Error::OutOfBounds),
        },
{
    let mut entry = entry;
    let cluster = match info.first_cluster {
        Some(c) => Some(c.get()),
        None => None,
    };
    entry.set_first_cluster(fat_type, cluster);
    let length = match u32_from(info.length) {
        Some(l) => l,
        None => return Err(Error::OutOfBounds),
    };
    entry.set_file_size(length);
    Ok(entry)
}

/// Whether a file's attributes mark it read-only.
pub open spec fn spec_is_read_only(info: FileInfo) -> bool {
    info.attributes & RawDirEntry::ATTR_READ_ONLY != 0
}

pub fn is_read_only(info: &FileInfo) -> (r: bool)
    ensures
        r == spec_is_read_only(*info),
{
    info.attributes & RawDirEntry::ATTR_READ_ONLY != 0
}

/// How a write of `length` bytes at `offset` into a file is checked before anything is written:
/// a read-only file is `ReadOnly`; an end past 4 GiB - 1 is `OutOfBounds`; otherwise the end and
/// the number of clusters the file then needs.
pub open spec fn spec_write_request(info: FileInfo, offset: u64, length: int, cluster_size: int) -> Result<
    (u64, u32),
    Error<()>,
> {
    if spec_is_read_only(info) {
        Err(Error::ReadOnly)
    } else if offset + length > u32::MAX || cluster_size == 0 {
        Err(Error::OutOfBounds)
    } else {
        Ok(((offset + length) as u64, spec_div_ceil(offset + length, cluster_size) as u32))
    }
}

/// The same result for any device error type.
pub open spec fn spec_same_outcome<T, E>(r: Result<T, Error<E>>, expected: Result<T, Error<()>>) -> bool {
    match expected {
        Ok(v) => r == Ok::<T, Error<E>>(v),
        Err(Error::ReadOnly) => r == Err::<T, Error<E>>(Error::ReadOnly),
        Err(Error::OutOfBounds) => r == Err::<T, Error<E>>(Error::OutOfBounds),
        Err(_) => false,
    }
}

pub fn write_request<E>(info: &FileInfo, offset: u64, length: usize, cluster_size: usize) -> (r: Result<
    (u64, u32),
    Error<E>,
>)
    ensures
        spec_same_outcome(r, spec_write_request(*info, offset, length as int, cluster_size as int)),
{
    if is_read_only(info) {
        return Err(Error::ReadOnly);
    }
    let end = match offset.checked_add(length as u64) {
        Some(e) => e,
        None => return Err(Error::OutOfBounds),
    };
    if end > u32::MAX as u64 || cluster_size == 0 {
        return Err(Error::OutOfBounds);
    }
    let required = div_ceil(end, cluster_size as u64);
    assert(required <= end) by (nonlinear_arith)
        requires
            cluster_size >= 1,
            required == spec_div_ceil(end as int, cluster_size as int),
    {
        if cluster_size == 1 {
        } else {
            assert((end as int) / (cluster_size as int) < end || end == 0);
        }
    }
    Ok((end, required as u32))
}

/// How a change of a file's length to `new_length` is checked before anything is written: a
/// length past 4 GiB - 1 is `OutOfBounds`; a read-only file is `ReadOnly`; the same length needs
/// nothing (`None`); otherwise the number of clusters the file then needs.
pub open spec fn spec_truncate_request(info: FileInfo, new_length: u64, cluster_size: int) -> Result<
    Option<u32>,
    Error<()>,
> {
    if new_length > u32::MAX {
        Err(Error::OutOfBounds)
    } else if spec_is_read_only(info) {
        Err(Error::ReadOnly)
    } else if new_length == info.length {
        Ok(None)
    } else if cluster_size == 0 {
        Err(Error::OutOfBounds)
    } else {
        Ok(Some(spec_div_ceil(new_length as int, cluster_size) as u32))
    }
}

pub fn truncate_request<E>(info: &FileInfo, new_length: u64, cluster_size: usize) -> (r: Result<
    Option<u32>,
    Error<E>,
>)
    ensures
        spec_same_outcome(r, spec_truncate_request(*info, new_length, cluster_size as int)),
{
    if new_length > u32::MAX as u64 {
        return Err(Error::OutOfBounds);
    }
    if is_read_only(info) {
        return Err(Error::ReadOnly);
    }
    if new_length == info.length {
        return Ok(None);
    }
    if cluster_size == 0 {
        return Err(Error::OutOfBounds);
    }
    let required = div_ceil(new_length, cluster_size as u64);
    assert(required <= new_length) by (nonlinear_arith)
        requires
            cluster_size >= 1,
            required == spec_div_ceil(new_length as int, cluster_size as int),
    {
        if cluster_size == 1 {
        } else {
            assert((new_length as int) / (cluster_size as int) < new_length || new_length == 0);
        }
    }
    Ok(Some(required as u32))
}

/// A file's metadata after it shrinks to `new_length`: the new length, and no first cluster
/// once nothing is left of it; its attributes and entry stay.
pub fn shrunk_file_info(info: &FileInfo, new_length: u64) -> (r: FileInfo)
    ensures
        r.length == new_length,
        new_length == 0 ==> r.first_cluster is None,
        new_length != 0 ==> r.first_cluster == info.first_cluster,
        r.attributes == info.attributes,
        r.entry == info.entry,
{
    FileInfo {
        first_cluster: if new_length == 0 {
            None
        } else {
            info.first_cluster
        },
        length: new_length,
        attributes: info.attributes,
        entry: info.entry,
    }
}

/// A file without clusters is recorded in its directory entry with a first-cluster field of 0,
/// so on every FAT type the entry reads back as naming no cluster.
pub proof fn lemma_no_cluster_is_recorded_as_zero(
    volume: Volume,
    entry: RawDirEntry,
    updated: RawDirEntry,
    info: FileInfo,
)
    requires
        info.first_cluster is None,
        spec_entry_with_info(entry.0@, volume.fat_type, info) == Some(updated.0@),
    ensures
        crate::format::spec_le16(updated.0@, 20) == 0,
        crate::format::spec_le16(updated.0@, 26) == 0,
        spec_entry_first_cluster(volume, updated) == 0,
{
    let b0 = entry.0@;
    let b1 = spec_put16(b0, 20, 0u16);
    crate::format::lemma_le16_put16(b0, 20, 0u16);
    let b2 = spec_put16(b1, 26, 0u16);
    crate::format::lemma_le16_put16(b1, 26, 0u16);
    assert(RawDirEntry::spec_with_first_cluster(b0, volume.fat_type, None) == b2);
    crate::format::lemma_le32_put32(b2, 28, info.length as u32);
    assert(updated.0@[20] == b2[20] && updated.0@[21] == b2[21]);
    assert(updated.0@[26] == b2[26] && updated.0@[27] == b2[27]);
}

/// The errors that the file-writing methods can give.
pub open spec fn spec_file_write_error<E>(e: Error<E>) -> bool {
    spec_directory_write_error(e) || e is NotFound || e is ReadOnly
}

/// Provides file writes and truncation.
pub trait FileWrite: FileAccess + DirectoryWrite where Self::FileHandle: MutableFileHandle {
    /// Called after a file's cluster chain changed, so that a handle that caches cluster
    /// positions can drop them. The default does nothing.
    fn file_chain_changed(&mut self, file: &mut Self::FileHandle) {
    }

    /// Writes a file handle's first cluster and length into its directory entry.
    fn persist_file_info(&mut self, file: &Self::FileHandle) -> (r: Result<(), Error<Self::Error>>)
        ensures
            r matches Err(e) ==> (spec_directory_write_error(e) || e is NotFound),
    {
        let info = *file.file_info();
        self.persist_info(&info)
    }

    /// Writes the first cluster and length that `info` gives into the file's directory entry.
    fn persist_info(&mut self, info: &FileInfo) -> (r: Result<(), Error<Self::Error>>)
        ensures
            r matches Err(e) ==> (spec_directory_write_error(e) || e is NotFound),
    {
        let entry = match self.read_directory_entry_at(info.entry) {
            Ok(e) => e,
            Err(e) => return Err(e),
        };
        let volume = *self.volume();
        let updated = match entry_with_info::<Self::Error>(entry, volume.fat_type, info) {
            Ok(e) => e,
            Err(e) => return Err(e),
        };
        proof {
            if info.first_cluster is None {
                lemma_no_cluster_is_recorded_as_zero(volume, entry, updated, *info);
            }
        }
        assert(info.first_cluster is None ==> spec_entry_first_cluster(volume, updated) == 0);
        self.write_directory_entry(info.entry, updated)
    }

    /// Writes bytes into a file's existing clusters, starting at a file offset.
    ///
    /// The clusters must already exist; running out of them is `CorruptChain`.
    fn write_file_data_at(&mut self, file: &mut Self::FileHandle, offset: u64, data: &[u8]) -> (r:
        Result<(), Error<Self::Error>>)
        ensures
            data@.len() == 0 ==> r is Ok,
            data@.len() > 0 && spec_offset_past_any_chain(offset) ==> r == Err::<
                (),
                Error<Self::Error>,
            >(Error::OutOfBounds),
            r matches Err(e) ==> (e is Io || e is OutOfBounds || e is CorruptChain),
    {
        if data.len() == 0 {
            return Ok(());
        }
        let volume = *self.volume();
        let cluster_size = volume.cluster_size();
        if cluster_size == 0 {
            return Err(Error::OutOfBounds);
        }
        let (mut cluster_index, within) = match chain_position(offset, cluster_size) {
            Some(p) => p,
            None => return Err(Error::OutOfBounds),
        };
        let mut within_cluster = within;
        let mut cluster = match self.resolve_file_cluster(file, cluster_index) {
            Ok(Some(c)) => c,
            Ok(None) => return Err(Error::CorruptChain),
            Err(e) => return Err(e),
        };
        let n = data.len();
        let mut written: usize = 0;
        while written < n
            invariant
                written <= n,
                n == data@.len(),
                within_cluster < cluster_size,
                cluster_size > 0,
                !spec_offset_past_any_chain(offset),
            decreases n - written,
        {
            let room = cluster_size - within_cluster;
            let length = if room < n - written {
                room
            } else {
                n - written
            };
            let base = match volume.cluster_byte_offset(cluster) {
                Some(b) => b,
                None => return Err(Error::CorruptChain),
            };
            let byte_offset = match base.checked_add(within_cluster as u64) {
                Some(o) => o,
                None => return Err(Error::OutOfBounds),
            };
            let (_, rest) = data.split_at(written);
            let (part, _) = rest.split_at(length);
            if let Err(e) = self.write_volume_at(byte_offset, part) {
                return Err(e);
            }
            written = written + length;
            within_cluster = 0;
            if written < n {
                cluster_index = match cluster_index.checked_add(1) {
                    Some(i) => i,
                    None => return Err(Error::OutOfBounds),
                };
                cluster = match self.resolve_next_file_cluster(file, cluster, cluster_index) {
                    Ok(Some(c)) => c,
                    Ok(None) => return Err(Error::CorruptChain),
                    Err(e) => return Err(e),
                };
            }
        }
        Ok(())
    }

    /// Writes `length` zero bytes into a file's existing clusters at a file offset.
    fn write_zeros(&mut self, file: &mut Self::FileHandle, offset: u64, length: u64) -> (r: Result<
        (),
        Error<Self::Error>,
    >)
        ensures
            length == 0 ==> r is Ok,
            length > 0 && spec_offset_past_any_chain(offset) ==> r == Err::<(), Error<Self::Error>>(
                Error::OutOfBounds,
            ),
            r matches Err(e) ==> (e is Io || e is OutOfBounds || e is CorruptChain),
    {
        let zeros = [0u8; 512];
        let mut position = offset;
        let mut remaining = length;
        while remaining != 0
            invariant
                remaining <= length,
                spec_offset_past_any_chain(offset) ==> position == offset && remaining == length,
            decreases remaining,
        {
            let part: usize = if remaining < 512 {
                remaining as usize
            } else {
                512
            };
            let (chunk, _) = zeros.as_slice().split_at(part);
            assert(chunk@.len() == part);
            if let Err(e) = self.write_file_data_at(file, position, chunk) {
                return Err(e);
            }
            position = match position.checked_add(part as u64) {
                Some(o) => o,
                None => return Err(Error::OutOfBounds),
            };
            remaining = remaining - part as u64;
        }
        Ok(())
    }

    /// Writes bytes at a file offset and returns how many were written.
    ///
    /// The chain is extended first; a gap between the old end of the file and `offset` is
    /// filled with zeros; the length grows when the write ends past it. A read-only file is
    /// `ReadOnly`; a file end past 4 GiB - 1 is `OutOfBounds`.
    fn write_file_at(&mut self, file: &mut Self::FileHandle, offset: u64, data: &[u8]) -> (r:
        Result<usize, Error<Self::Error>>)
        ensures
            data@.len() == 0 ==> r == Ok::<usize, Error<Self::Error>>(0),
            r matches Ok(n) ==> n == data@.len(),
            r matches Err(e) ==> spec_file_write_error(e),
    {
        if data.len() == 0 {
            return Ok(0);
        }
        let old = *file.file_info();
        let cluster_size = self.volume().cluster_size();
        let (end, required) = match write_request::<Self::Error>(&old, offset, data.len(), cluster_size) {
            Ok(plan) => plan,
            Err(e) => return Err(e),
        };
        let mut first = old.first_cluster;
        if let Err(e) = self.ensure_chain_length(&mut first, required) {
            return Err(e);
        }
        if first != old.first_cluster {
            file.file_info_mut().first_cluster = first;
            if let Err(e) = self.persist_file_info(file) {
                return Err(e);
            }
        }
        if end > old.length {
            self.file_chain_changed(file);
        }
        if offset > old.length {
            if let Err(e) = self.write_zeros(file, old.length, offset - old.length) {
                return Err(e);
            }
        }
        if let Err(e) = self.write_file_data_at(file, offset, data) {
            return Err(e);
        }
        if end > old.length {
            file.file_info_mut().length = end;
            if let Err(e) = self.persist_file_info(file) {
                return Err(e);
            }
        }
        Ok(data.len())
    }

    /// Sets a file's length.
    ///
    /// Growing extends the chain and fills the new bytes with zeros; shrinking records the new
    /// length first and then frees the clusters that are no longer needed. A length past
    /// 4 GiB - 1 is `OutOfBounds`; a read-only file is `ReadOnly`.
    fn truncate_file(&mut self, file: &mut Self::FileHandle, new_length: u64) -> (r: Result<
        (),
        Error<Self::Error>,
    >)
        ensures
            new_length > u32::MAX ==> r == Err::<(), Error<Self::Error>>(Error::OutOfBounds),
            r matches Err(e) ==> spec_file_write_error(e),
    {
        if new_length > u32::MAX as u64 {
            return Err(Error::OutOfBounds);
        }
        let old = *file.file_info();
        let cluster_size = self.volume().cluster_size();
        let required = match truncate_request::<Self::Error>(&old, new_length, cluster_size) {
            Ok(Some(n)) => n,
            Ok(None) => return Ok(()),
            Err(e) => return Err(e),
        };
        if new_length > old.length {
            let mut first = old.first_cluster;
            if let Err(e) = self.ensure_chain_length(&mut first, required) {
                return Err(e);
            }
            file.file_info_mut().first_cluster = first;
            if first != old.first_cluster {
                if let Err(e) = self.persist_file_info(file) {
                    return Err(e);
                }
            }
            self.file_chain_changed(file);
            if let Err(e) = self.write_zeros(file, old.length, new_length - old.length) {
                return Err(e);
            }
            file.file_info_mut().length = new_length;
            return self.persist_file_info(file);
        }
        let shrunk = shrunk_file_info(&old, new_length);
        *file.file_info_mut() = shrunk;
        assert(new_length == 0 ==> shrunk.first_cluster is None);
        if let Err(e) = self.persist_info(&shrunk) {
            return Err(e);
        }
        if let Err(e) = self.truncate_chain(old.first_cluster, required) {
            return Err(e);
        }
        self.file_chain_changed(file);
        Ok(())
    }
}

/// A file system that supports reading and writing, with handles whose metadata can be updated.
pub trait FatFs: FileWrite where Self::FileHandle: MutableFileHandle {

}

impl<D: BlockWrite> DirectoryWrite for FileSystem<D> {
}

impl<D: BlockWrite> FileWrite for FileSystem<D> {
}

impl<D: BlockWrite> FatFs for FileSystem<D> {
}

// ---------------------------------------------------------------------------
// Laws
// ---------------------------------------------------------------------------

/// A name without spaces, padded with spaces, is trimmed back to the name.
proof fn lemma_trim_padded(name: Seq<u8>, raw: Seq<u8>)
    requires
        name.len() <= raw.len(),
        raw.subrange(0, name.len() as int) == name,
        forall|i: int| name.len() <= i < raw.len() ==> raw[i] == 0x20,
        forall|i: int| 0 <= i < name.len() ==> name[i] != 0x20,
    ensures
        spec_trim_at_space(raw) == name,
{
    if name.len() < raw.len() {
        let k = name.len() as int;
        assert(raw[k] == 0x20);
        assert(forall|j: int| 0 <= j < k ==> raw[j] == name[j]);
        let f = spec_first_index_of(raw, 0x20);
        assert(0 <= f < raw.len() && raw[f] == 0x20 && forall|j: int| 0 <= j < f ==> raw[j] != 0x20);
        assert(f == k) by {
            if f < k {
                assert(raw[f] == name[f]);
            }
        }
    } else {
        assert(raw == name);
        if exists|i: int| 0 <= i < raw.len() && raw[i] == 0x20 {
            let i = choose|i: int| 0 <= i < raw.len() && raw[i] == 0x20;
            assert(name[i] == 0x20);
        }
    }
}

/// A name that is stored under its own upper-case 8.3 short name is matched by that short name,
/// so a file created under such a name is found again by it.
pub proof fn lemma_canonical_short_name_matches(n: Seq<u8>)
    requires
        spec_canonical_short_name(n) is Some,
    ensures
        spec_short_name_matches(spec_canonical_short_name(n)->Some_0, n),
{
    let (base, extension) = spec_first_dot_split(n);
    let short = spec_packed(base, extension);
    assert(short == spec_canonical_short_name(n)->Some_0);
    if spec_contains(n, 0x2e) {
        lemma_first_index_of(n, 0x2e);
        let d = spec_first_index_of(n, 0x2e);
        assert(d > 0);
        let l = spec_last_index_of(n, 0x2e);
        assert(forall|j: int| d < j < n.len() ==> n[j] != 0x2e) by {
            assert forall|j: int| d < j < n.len() implies n[j] != 0x2e by {
                if n[j] == 0x2e {
                    assert(extension[j - d - 1] == 0x2e);
                }
            }
        }
        assert(0 <= l < n.len() && n[l] == 0x2e && forall|j: int| l < j < n.len() ==> n[j] != 0x2e);
        assert(l == d);
        assert(spec_split_extension(n) == (base, extension));
        assert(n != seq![0x2eu8]) by {
            if n == seq![0x2eu8] {
                assert(d == 0);
            }
        }
        assert(n != seq![0x2eu8, 0x2eu8]) by {
            if n == seq![0x2eu8, 0x2eu8] {
                assert(n[0] == 0x2e);
            }
        }
    } else {
        assert(spec_split_extension(n) == (base, extension));
        assert(n != seq![0x2eu8]) by {
            if n == seq![0x2eu8] {
                assert(n[0] == 0x2e);
            }
        }
        assert(n != seq![0x2eu8, 0x2eu8]) by {
            if n == seq![0x2eu8, 0x2eu8] {
                assert(n[0] == 0x2e);
            }
        }
    }
    assert(forall|i: int| 0 <= i < base.len() ==> base[i] != 0x20) by {
        assert forall|i: int| 0 <= i < base.len() implies base[i] != 0x20 by {
            assert(spec_is_short_character(base[i]));
        }
    }
    assert(forall|i: int| 0 <= i < extension.len() ==> extension[i] != 0x20) by {
        assert forall|i: int| 0 <= i < extension.len() implies extension[i] != 0x20 by {
            assert(spec_is_short_character(extension[i]));
        }
    }
    assert(short.subrange(0, 8).subrange(0, base.len() as int) == base);
    lemma_trim_padded(base, short.subrange(0, 8));
    assert(short.subrange(8, 11).subrange(0, extension.len() as int) == extension);
    lemma_trim_padded(extension, short.subrange(8, 11));
    assert(spec_component_matches(short.subrange(0, 8), base));
    assert(spec_component_matches(short.subrange(8, 11), extension));
}

/// The long-name entries written for a name spell it: code unit `k` of the name is unit
/// `k % 13` of the entry with ordinal `k / 13 + 1`, which is one of the name's entries; when
/// the name does not fill its last entry, a 0 follows it there.
pub proof fn lemma_lfn_parts_spell_name(units: Seq<u16>, length: int)
    requires
        0 < length <= units.len(),
    ensures
        forall|k: int|
            0 <= k < length ==> 1 <= k / 13 + 1 <= spec_lfn_count(length) && #[trigger] spec_lfn_part(
                units,
                length,
                k / 13 + 1,
            )[k % 13] == units[k],
        length % 13 != 0 ==> spec_lfn_part(units, length, spec_lfn_count(length))[length % 13]
            == 0,
{
    assert forall|k: int| 0 <= k < length implies 1 <= k / 13 + 1 <= spec_lfn_count(length)
        && #[trigger] spec_lfn_part(units, length, k / 13 + 1)[k % 13] == units[k] by {
        assert((k / 13) * 13 + k % 13 == k) by (nonlinear_arith);
        assert(k / 13 <= length / 13) by (nonlinear_arith)
            requires
                k < length,
                k >= 0,
        ;
        assert(k / 13 < spec_lfn_count(length)) by (nonlinear_arith)
            requires
                0 <= k < length,
                spec_lfn_count(length) == length / 13 + if length % 13 == 0 {
                    0int
                } else {
                    1int
                },
        ;
    }
    if length % 13 != 0 {
        assert((length / 13) * 13 + length % 13 == length) by (nonlinear_arith);
    }
}

/// The number of clusters planned for `end` bytes is the fewest that hold them.
pub proof fn lemma_div_ceil_is_fewest(end: int, cluster_size: int)
    requires
        end >= 0,
        cluster_size > 0,
    ensures
        spec_div_ceil(end, cluster_size) * cluster_size >= end,
        spec_div_ceil(end, cluster_size) == 0 || (spec_div_ceil(end, cluster_size) - 1)
            * cluster_size < end,
{
    let q = end / cluster_size;
    let r = end % cluster_size;
    assert(q * cluster_size + r == end && 0 <= r < cluster_size) by (nonlinear_arith)
        requires
            cluster_size > 0,
            q == end / cluster_size,
            r == end % cluster_size,
    ;
    if r == 0 {
        assert(q * cluster_size == end);
        assert(q == 0 || (q - 1) * cluster_size < end) by (nonlinear_arith)
            requires
                q * cluster_size == end,
                cluster_size > 0,
        ;
    } else {
        assert((q + 1) * cluster_size >= end) by (nonlinear_arith)
            requires
                q * cluster_size + r == end,
                r < cluster_size,
        ;
    }
}

/// A file's first cluster and length, written into its directory entry, are what the entry
/// describes when the file is opened again.
pub proof fn lemma_persisted_info_reads_back(
    volume: Volume,
    found: FoundEntry,
    updated: RawDirEntry,
    info: FileInfo,
)
    requires
        !found.raw.spec_is_directory(),
        !found.raw.spec_is_volume_label(),
        spec_entry_with_info(found.raw.0@, volume.fat_type, info) == Some(updated.0@),
        info.length != 0 ==> info.first_cluster is Some,
        info.first_cluster matches Some(c) ==> c.spec_get() >= 2,
        info.first_cluster matches Some(c) ==> (volume.fat_type == FatType::Fat32 ==> c.spec_get()
            < 0x1000_0000) && (volume.fat_type != FatType::Fat32 ==> c.spec_get() < 0x10000),
    ensures
        spec_file_info(volume, FoundEntry { raw: updated, ..found }) == Ok::<FileInfo, ()>(
            FileInfo {
                first_cluster: info.first_cluster,
                length: info.length,
                attributes: found.raw.0@[11],
                entry: found.location,
            },
        ),
{
    let b0 = found.raw.0@;
    let c: u32 = match info.first_cluster {
        Some(c) => c.spec_get(),
        None => 0,
    };
    let b1 = RawDirEntry::spec_with_first_cluster(b0, volume.fat_type, spec_recorded_cluster(info.first_cluster));
    lemma_first_cluster_round_trip(found.raw, volume.fat_type, c);
    assert(b1 == RawDirEntry::spec_with_first_cluster(b0, volume.fat_type, Some(c)));
    let b2 = spec_put32(b1, 28, info.length as u32);
    crate::format::lemma_le32_put32(b1, 28, info.length as u32);
    assert(b2 == updated.0@);
    let high: u16 = if volume.fat_type == FatType::Fat32 {
        ((c % 0x1000_0000) / 65536) as u16
    } else {
        0
    };
    crate::format::lemma_le16_put16(b0, 20, high);
    crate::format::lemma_le16_put16(spec_put16(b0, 20, high), 26, (c % 65536) as u16);
    assert(b2[11] == b0[11]);
    assert(crate::format::spec_le16(b2, 20) == crate::format::spec_le16(b1, 20));
    assert(crate::format::spec_le16(b2, 26) == crate::format::spec_le16(b1, 26));
    let raw = updated;
    assert(spec_entry_first_cluster(volume, raw) == c) by {
        if volume.fat_type == FatType::Fat32 {
            assert(raw.spec_first_cluster() == c);
        }
    }
    match info.first_cluster {
        Some(cl) => {
            assert(Cluster::spec_from(c) == cl) by {
                lemma_cluster_from(c);
                lemma_cluster_eq(Cluster::spec_from(c), cl);
            }
        },
        None => {},
    }
}

/// Whether a directory location lies on the volume: the fixed root directory of a FAT12 or
/// FAT16 volume, or a cluster numbered from 2 to `cluster_count + 1`.
pub open spec fn spec_directory_on_volume(volume: Volume, location: DirectoryLocation) -> bool {
    match location {
        DirectoryLocation::FixedRoot => volume.fat_type != FatType::Fat32,
        DirectoryLocation::Cluster(c) => c.spec_get() >= 2 && crate::access::spec_cluster_in_volume(
            volume,
            c.spec_get(),
        ),
    }
}

/// When a directory is moved into `parent`, its `..` entry records the parent reference of
/// `parent`; read back, that entry leads to `parent` itself: to the parent's cluster, or to the
/// root directory when `parent` is the root.
pub proof fn lemma_moved_dot_dot_leads_to_parent(
    volume: Volume,
    dot_dot: RawDirEntry,
    updated: RawDirEntry,
    parent: DirectoryLocation,
)
    requires
        volume.spec_well_formed(),
        spec_is_dot_dot_entry(dot_dot),
        spec_directory_on_volume(volume, parent),
        updated.0@ == RawDirEntry::spec_with_first_cluster(
            dot_dot.0@,
            volume.fat_type,
            Some(spec_parent_reference(volume, parent)),
        ),
    ensures
        spec_is_dot_dot_entry(updated),
        spec_directory_location(volume, updated) == Some(parent),
{
    crate::volume::lemma_well_formed_volume(volume);
    let r = spec_parent_reference(volume, parent);
    let b = updated.0@;
    let high: u16 = if volume.fat_type == FatType::Fat32 {
        ((r % 0x1000_0000) / 65536) as u16
    } else {
        0
    };
    assert(b == spec_put16(spec_put16(dot_dot.0@, 20, high), 26, (r % 65536) as u16));
    assert(b.subrange(0, 11) == dot_dot.0@.subrange(0, 11));
    assert(spec_is_dot_dot_entry(updated));
    lemma_first_cluster_round_trip(dot_dot, volume.fat_type, r);
    assert(spec_entry_first_cluster(volume, updated) == r);
    if r == 0 {
        let short = b.subrange(0, 11);
        let dots = seq![0x2eu8, 0x2eu8];
        assert(short.subrange(0, 8).subrange(0, 2) == dots);
        assert(short[8] == 0x20 && short[9] == 0x20 && short[10] == 0x20);
        lemma_trim_padded(dots, short.subrange(0, 8));
        assert(spec_component_matches(short.subrange(0, 8), dots));
        assert(crate::access::spec_is_dot_dot(short));
        match parent {
            DirectoryLocation::FixedRoot => {},
            DirectoryLocation::Cluster(c) => {
                assert(Cluster::spec_from(volume.bpb.root_cluster) == c) by {
                    lemma_cluster_from(volume.bpb.root_cluster);
                    lemma_cluster_eq(Cluster::spec_from(volume.bpb.root_cluster), c);
                }
            },
        }
    } else {
        match parent {
            DirectoryLocation::FixedRoot => {},
            DirectoryLocation::Cluster(c) => {
                assert(Cluster::spec_from(r) == c) by {
                    lemma_cluster_from(r);
                    lemma_cluster_eq(Cluster::spec_from(r), c);
                }
            },
        }
    }
}

/// A short entry whose base and extension are short-name characters padded with spaces, with a
/// base that is not empty, is found again by the name it is listed under: each listed unit is
/// ASCII, and the listed name, typed back as a path component, matches the entry's short name
/// whatever its case flags say.
pub proof fn lemma_listed_short_name_finds_entry(raw: Seq<u8>)
    requires
        raw.len() == 32,
        spec_is_short_character(raw[0]),
        forall|i: int| 0 <= i < 11 ==> spec_is_short_character(#[trigger] raw[i]) || raw[i] == 0x20,
        forall|i: int, j: int| 0 <= i < j < 8 && #[trigger] raw[i] == 0x20 ==> #[trigger] raw[j] == 0x20,
        forall|i: int, j: int| 8 <= i < j < 11 && #[trigger] raw[i] == 0x20 ==> #[trigger] raw[j] == 0x20,
    ensures
        ({
            let d = crate::access::spec_short_display_name(raw);
            let typed = Seq::new(d.len(), |i: int| d[i] as u8);
            &&& forall|i: int| 0 <= i < d.len() ==> #[trigger] d[i] < 0x80
            &&& spec_short_name_matches(raw.subrange(0, 11), typed)
        }),
{
    crate::access::lemma_short_display_name_layout(raw);
    let d = crate::access::spec_short_display_name(raw);
    let typed = Seq::new(d.len(), |i: int| d[i] as u8);
    let b = crate::access::spec_trimmed_length(raw, 0, 8);
    let e = crate::access::spec_trimmed_length(raw, 8, 11);
    assert(b > 0);
    assert forall|i: int| 0 <= i < b implies raw[i] != 0x20 && spec_is_short_character(#[trigger] raw[i]) by {
        if raw[i] == 0x20 && i < b - 1 {
            assert(raw[b - 1] == 0x20);
        }
    }
    assert forall|k: int| 8 <= k < 8 + e implies raw[k] != 0x20 && spec_is_short_character(#[trigger] raw[k]) by {
        if raw[k] == 0x20 && k < 8 + e - 1 {
            assert(raw[8 + e - 1] == 0x20);
        }
    }
    let base = raw.subrange(0, b);
    let extension = raw.subrange(8, 8 + e);
    assert forall|i: int| 0 <= i < d.len() implies #[trigger] d[i] < 0x80 && (typed[i] == 0x2e ==> i
        == b) by {
        if i < b {
            assert(spec_is_short_character(raw[i]));
        } else if i > b {
            assert(spec_is_short_character(raw[8 + (i - b - 1)]));
        }
    }
    assert(forall|i: int| 0 <= i < b ==> crate::format::spec_ascii_lower(#[trigger] typed[i])
        == crate::format::spec_ascii_lower(raw[i]));
    assert(forall|k: int| 0 <= k < e ==> crate::format::spec_ascii_lower(#[trigger] typed[b + 1 + k])
        == crate::format::spec_ascii_lower(raw[8 + k]));
    assert(typed != seq![0x2eu8]) by {
        if typed == seq![0x2eu8] {
            assert(typed[0] == 0x2e);
        }
    }
    assert(typed != seq![0x2eu8, 0x2eu8]) by {
        if typed == seq![0x2eu8, 0x2eu8] {
            assert(typed[0] == 0x2e);
        }
    }
    let short = raw.subrange(0, 11);
    assert(short.subrange(0, 8).subrange(0, b) == base);
    lemma_trim_padded(base, short.subrange(0, 8));
    assert(short.subrange(8, 11).subrange(0, e) == extension);
    lemma_trim_padded(extension, short.subrange(8, 11));
    if e > 0 {
        assert(typed[b] == 0x2e);
        assert(spec_contains(typed, 0x2e));
        let l = spec_last_index_of(typed, 0x2e);
        assert(0 <= l < typed.len() && typed[l] == 0x2e && forall|j: int| l < j < typed.len() ==> typed[j] != 0x2e);
        assert(l == b) by {
            if l < b {
                assert(typed[b] == 0x2e);
            }
        }
        assert(spec_split_extension(typed) == (typed.subrange(0, b), typed.subrange(b + 1, typed.len() as int)));
        assert(spec_component_matches(short.subrange(0, 8), typed.subrange(0, b)));
        assert(spec_component_matches(short.subrange(8, 11), typed.subrange(b + 1, typed.len() as int)));
    } else {
        assert(!spec_contains(typed, 0x2e));
        assert(spec_split_extension(typed) == (typed, Seq::<u8>::empty()));
        assert(typed.len() == b);
        assert(spec_component_matches(short.subrange(0, 8), typed));
        assert(spec_component_matches(short.subrange(8, 11), Seq::<u8>::empty()));
    }
}

} // verus!
