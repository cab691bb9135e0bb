//! Names of files: how they are taken apart, and the key by which a tool is known in them.
use vstd::prelude::*;
use vstd::slice::slice_subrange;
use vstd::utf8::encode_utf8;
use crate::number::push_hex;
use crate::text::{char_is_alphanumeric, chars_of, find_last_char, lower_char, text_of};
#[allow(unused_imports)]
use crate::number::{hex, hex_digit};
#[allow(unused_imports)]
use crate::text::{
    ascii_lower, is_ascii_alphanumeric, is_char, last_where, lemma_last_where_is,
};

verus! {

// ---------------------------------------------------------------------------
// The hash of a name
// ---------------------------------------------------------------------------

/// The hash of nothing.
pub const HASH_OFFSET: u64 = 0xcbf29ce484222325;

/// What the hash is multiplied by for each byte.
pub const HASH_PRIME: u64 = 0x100000001b3;

/// The hash of some bytes and one more, where `hash` is that of the others.
pub open spec fn hash_step(hash: u64, byte: u8) -> u64 {
    (((hash ^ (byte as u64)) * HASH_PRIME) % 0x1_0000_0000_0000_0000) as u64
}

/// The 64-bit FNV-1a hash of a sequence of bytes.
pub open spec fn hash(bytes: Seq<u8>) -> u64
    decreases bytes.len(),
{
    if bytes.len() == 0 {
        HASH_OFFSET
    } else {
        hash_step(hash(bytes.drop_last()), bytes.last())
    }
}

/// The 64-bit FNV-1a hash of `bytes`.
pub fn hash_of(bytes: &[u8]) -> (value: u64)
    ensures
        value == hash(bytes@),
{
    let mut value: u64 = HASH_OFFSET;
    for i in 0..bytes.len()
        invariant
            value == hash(bytes@.take(i as int)),
    {
        assert(bytes@.take(i + 1).drop_last() =~= bytes@.take(i as int));
        value = (value ^ bytes[i] as u64).wrapping_mul(HASH_PRIME);
    }
    assert(bytes@.take(bytes@.len() as int) =~= bytes@);
    value
}

// ---------------------------------------------------------------------------
// Keys
// ---------------------------------------------------------------------------

/// A character as it stands in a key.
pub open spec fn key_char(c: char) -> char {
    if is_ascii_alphanumeric(c) {
        ascii_lower(c)
    } else {
        '_'
    }
}

/// The key of a name: the name in lower case, with `_` for all but ASCII letters and
/// digits, and the hash of the name, by which names that look alike differ.
pub open spec fn key(name: Seq<char>) -> Seq<char> {
    name.map_values(|c: char| key_char(c)).push('_') + hex(hash(encode_utf8(name)) as nat, 16)
}

/// The key of a tool's name.
pub fn tool_key(name: &str) -> (text: String)
    ensures
        text@ == key(name@),
{
    let chars = chars_of(name);
    let mut text = String::new();
    for i in 0..chars.len()
        invariant
            chars@ == name@,
            text@ == chars@.take(i as int).map_values(|c: char| key_char(c)),
    {
        let c = chars[i];
        text.push(if char_is_alphanumeric(c) { lower_char(c) } else { '_' });
        assert(text@ =~= chars@.take(i + 1).map_values(|c: char| key_char(c)));
    }
    assert(chars@.take(chars@.len() as int) =~= name@);
    text.push('_');
    push_hex(&mut text, hash_of(name.as_bytes()), 16);
    text
}

/// The hexadecimal form of a number holds digits and the letters `a` to `f` only.
pub proof fn lemma_hex_digits(n: nat, width: nat)
    ensures
        hex(n, width).len() == width,
        forall|i: int|
            0 <= i < width ==> {
                ||| '0' <= #[trigger] hex(n, width)[i] <= '9'
                ||| 'a' <= hex(n, width)[i] <= 'f'
            },
    decreases width,
{
    if width > 0 {
        lemma_hex_digits(n / 16, (width - 1) as nat);
        let before = hex(n / 16, (width - 1) as nat);
        let last = hex_digit(n % 16);
        assert(hex(n, width) == before.push(last));
        assert forall|i: int| 0 <= i < width implies {
            ||| '0' <= #[trigger] hex(n, width)[i] <= '9'
            ||| 'a' <= hex(n, width)[i] <= 'f'
        } by {
            if i < width - 1 {
                assert(hex(n, width)[i] == before[i]);
            } else {
                assert(hex(n, width)[i] == last);
            }
        }
    }
}

/// A key holds lower-case ASCII letters, digits and `_` only, so it is a file name on any
/// system, and whatever follows a dot behind it can be told from it.
pub proof fn law_key_is_plain(name: Seq<char>)
    ensures
        key(name).len() == name.len() + 17,
        forall|i: int|
            0 <= i < key(name).len() ==> {
                ||| 'a' <= #[trigger] key(name)[i] <= 'z'
                ||| '0' <= key(name)[i] <= '9'
                ||| key(name)[i] == '_'
            },
{
    let digits = hex(hash(encode_utf8(name)) as nat, 16);
    lemma_hex_digits(hash(encode_utf8(name)) as nat, 16);
    assert forall|i: int| 0 <= i < key(name).len() implies {
        ||| 'a' <= #[trigger] key(name)[i] <= 'z'
        ||| '0' <= key(name)[i] <= '9'
        ||| key(name)[i] == '_'
    } by {
        if i < name.len() {
            assert(key(name)[i] == key_char(name[i]));
        } else if i > name.len() {
            assert(key(name)[i] == digits[i - name.len() - 1]);
        }
    }
}

proof fn lemma_hex_digit_code(n: nat)
    requires
        n < 16,
    ensures
        hex_digit(n) as u32 == if n < 10 {
            48 + n
        } else {
            87 + n
        },
{
}

/// Hexadecimal forms of the same width are those of the same number.
proof fn lemma_hex_width_injective(a: nat, b: nat, width: nat)
    requires
        a < vstd::arithmetic::power::pow(16, width),
        b < vstd::arithmetic::power::pow(16, width),
        hex(a, width) == hex(b, width),
    ensures
        a == b,
    decreases width,
{
    broadcast use vstd::arithmetic::power::lemma_pow0;

    if width > 0 {
        let w = (width - 1) as nat;
        vstd::arithmetic::power::lemma_pow_adds(16, w, 1);
        vstd::arithmetic::power::lemma_pow1(16);
        vstd::arithmetic::power::lemma_pow_positive(16, w);
        let p = vstd::arithmetic::power::pow(16, w);
        assert(vstd::arithmetic::power::pow(16, width) == p * 16);
        assert(a / 16 < p && b / 16 < p) by (nonlinear_arith)
            requires
                a < p * 16,
                b < p * 16,
        ;
        assert(hex(a, width).drop_last() =~= hex(a / 16, w));
        assert(hex(b, width).drop_last() =~= hex(b / 16, w));
        lemma_hex_width_injective(a / 16, b / 16, w);
        assert(hex(a, width).last() == hex_digit(a % 16));
        assert(hex(b, width).last() == hex_digit(b % 16));
        lemma_hex_digit_code(a % 16);
        lemma_hex_digit_code(b % 16);
        assert(a % 16 == b % 16);
    }
}

proof fn lemma_pow16()
    ensures
        vstd::arithmetic::power::pow(16, 16) == 0x1_0000_0000_0000_0000,
{
    reveal_with_fuel(vstd::arithmetic::power::pow, 17);
}

/// Two numbers with the same sixteen hexadecimal digits are the same.
pub proof fn lemma_hex_injective(a: u64, b: u64)
    requires
        hex(a as nat, 16) == hex(b as nat, 16),
    ensures
        a == b,
{
    lemma_pow16();
    lemma_hex_width_injective(a as nat, b as nat, 16);
}

/// Two names have the same key only if they are as long and have the same hash.
pub proof fn law_keys_differ(a: Seq<char>, b: Seq<char>)
    requires
        key(a) == key(b),
    ensures
        a.len() == b.len(),
        hash(encode_utf8(a)) == hash(encode_utf8(b)),
{
    law_key_is_plain(a);
    law_key_is_plain(b);
    let x = hash(encode_utf8(a));
    let y = hash(encode_utf8(b));
    lemma_hex_digits(x as nat, 16);
    lemma_hex_digits(y as nat, 16);
    let n = a.len() as int;
    assert(key(a).skip(n + 1) =~= hex(x as nat, 16));
    assert(key(b).skip(n + 1) =~= hex(y as nat, 16));
    lemma_hex_injective(x, y);
}

// ---------------------------------------------------------------------------
// Extensions
// ---------------------------------------------------------------------------

/// The place of the dot before the extension of a file name, if it has one: a dot at the
/// start of a name starts no extension.
pub open spec fn extension_dot(name: Seq<char>) -> Option<int> {
    let dot = last_where(name, is_char('.'));
    if dot > 0 && name != seq!['.', '.'] {
        Some(dot)
    } else {
        None
    }
}

/// The extension of a file name.
pub open spec fn extension(name: Seq<char>) -> Option<Seq<char>> {
    match extension_dot(name) {
        Some(dot) => Some(name.skip(dot + 1)),
        None => None,
    }
}

/// A file name without its extension.
pub open spec fn stem(name: Seq<char>) -> Seq<char> {
    match extension_dot(name) {
        Some(dot) => name.take(dot),
        None => name,
    }
}

/// Whether a name is one that no file has: the empty one, and those by which a directory
/// names itself and the one above it.
pub open spec fn names_no_file(name: Seq<char>) -> bool {
    name.len() == 0 || name == seq!['.'] || name == seq!['.', '.']
}

/// A file name with another extension in place of its own.
pub open spec fn with_extension(name: Seq<char>, other: Seq<char>) -> Seq<char> {
    if names_no_file(name) {
        name
    } else {
        stem(name).push('.') + other
    }
}

fn find_extension_dot(chars: &[char]) -> (dot: Option<usize>)
    ensures
        match dot {
            Some(dot) => extension_dot(chars@) == Some(dot as int) && dot < chars@.len(),
            None => extension_dot(chars@) is None,
        },
{
    let up = chars.len() == 2 && chars[0] == '.' && chars[1] == '.';
    assert(up == (chars@ =~= seq!['.', '.']));
    match find_last_char(chars, '.') {
        Some(dot) => if dot > 0 && !up {
            Some(dot)
        } else {
            None
        },
        None => None,
    }
}

/// The extension of a file name.
pub fn extension_of(name: &str) -> (found: Option<String>)
    ensures
        match found {
            Some(found) => extension(name@) == Some(found@),
            None => extension(name@) is None,
        },
{
    let chars = chars_of(name);
    match find_extension_dot(chars.as_slice()) {
        Some(dot) => {
            let total: usize = chars.len();
            assert(chars@.subrange(dot + 1, total as int) =~= name@.skip(dot + 1));
            Some(text_of(slice_subrange(chars.as_slice(), dot + 1, total)))
        },
        None => None,
    }
}

/// A file name with another extension in place of its own.
pub fn replace_extension(name: &str, other: &str) -> (text: String)
    ensures
        text@ == with_extension(name@, other@),
{
    let chars = chars_of(name);
    let none = chars.len() == 0 || (chars.len() == 1 && chars[0] == '.') || (chars.len() == 2
        && chars[0] == '.' && chars[1] == '.');
    proof {
        assert((chars@.len() == 1 && chars@[0] == '.') == (name@ =~= seq!['.']));
        assert((chars@.len() == 2 && chars@[0] == '.' && chars@[1] == '.') == (name@ =~= seq![
            '.',
            '.',
        ]));
    }
    if none {
        return name.to_owned();
    }
    let end: usize = match find_extension_dot(chars.as_slice()) {
        Some(dot) => dot,
        None => chars.len(),
    };
    assert(chars@.subrange(0, end as int) =~= stem(name@));
    let mut text = text_of(slice_subrange(chars.as_slice(), 0, end));
    text.push('.');
    text.append(other);
    text
}

/// What stands behind the last dot of a name is its extension.
pub proof fn lemma_extension(start: Seq<char>, end: Seq<char>)
    requires
        start.len() > 0,
        end.len() > 0,
        forall|i: int| 0 <= i < end.len() ==> end[i] != '.',
    ensures
        extension(start.push('.') + end) == Some(end),
        stem(start.push('.') + end) == start,
{
    let name = start.push('.') + end;
    let dot = start.len() as int;
    assert(name[start.len() as int] == '.');
    assert forall|j: int| start.len() < j < name.len() implies !is_char('.')(
        #[trigger] name[j],
    ) by {
        assert(name[j] == end[j - start.len() - 1]);
    }
    lemma_last_where_is(name, is_char('.'), start.len() as int);
    assert(name != seq!['.', '.']) by {
        assert(name[dot + 1] == end[0]);
        if name == seq!['.', '.'] {
            assert(seq!['.', '.'][dot + 1] == '.');
        }
    }
    assert(name.skip(dot + 1) =~= end);
    assert(name.take(start.len() as int) =~= start);
}

/// The hash is the 64-bit FNV-1a one: it starts with its offset, and with each byte is combined
/// with the byte and multiplied by its prime, to 64 bits.
pub proof fn law_hash(bytes: Seq<u8>, byte: u8)
    ensures
        hash(Seq::empty()) == 14_695_981_039_346_656_037,
        hash(bytes.push(byte)) == (((hash(bytes) ^ (byte as u64)) * 1_099_511_628_211)
            % 18_446_744_073_709_551_616) as u64,
{
    assert(bytes.push(byte).drop_last() =~= bytes);
}

/// The key of a name holds, character by character, the name in lower case, with `_` for all but
/// letters and digits, then `_` and the hash of the name.
pub proof fn law_key_of_a_name(name: Seq<char>, i: int)
    ensures
        key(name).skip(name.len() as int + 1) == hex(hash(encode_utf8(name)) as nat, 16),
        key(name)[name.len() as int] == '_',
        0 <= i < name.len() ==> key(name)[i] == (if ('a' <= name[i] <= 'z') || ('0' <= name[i]
            <= '9') {
            name[i]
        } else if 'A' <= name[i] <= 'Z' {
            (name[i] as u32 + 32) as char
        } else {
            '_'
        }),
{
    assert(key(name).skip(name.len() as int + 1) =~= hex(hash(encode_utf8(name)) as nat, 16));
}

/// A name without a dot has no extension, nor has one whose only dot starts it; the extension is
/// what stands behind the last dot, and another takes its place.
pub proof fn law_extension(start: Seq<char>, end: Seq<char>, other: Seq<char>)
    requires
        forall|i: int| 0 <= i < end.len() ==> end[i] != '.',
    ensures
        extension(end) is None,
        extension(seq!['.'] + end) is None,
        start.len() > 0 && end.len() > 0 ==> extension(start.push('.') + end) == Some(end)
            && with_extension(start.push('.') + end, other) == start.push('.') + other,
        end.len() > 0 ==> with_extension(end, other) == end.push('.') + other,
{
    assert forall|j: int| 0 <= j < end.len() implies !is_char('.')(#[trigger] end[j]) by {}
    lemma_last_where_is(end, is_char('.'), -1);
    let hidden = seq!['.'] + end;
    assert(hidden[0] == '.');
    assert forall|j: int| 0 < j < hidden.len() implies !is_char('.')(#[trigger] hidden[j]) by {
        assert(hidden[j] == end[j - 1]);
    }
    lemma_last_where_is(hidden, is_char('.'), 0);
    if end.len() > 0 {
        assert(end[0] != '.');
        assert(!names_no_file(end));
    }
    if start.len() > 0 && end.len() > 0 {
        lemma_extension(start, end);
        let whole = start.push('.') + end;
        assert(whole[whole.len() - 1] == end.last());
        assert(end.last() == end[end.len() - 1]);
        assert(!names_no_file(whole));
    }
}

/// A name that ends in a point has an empty extension; a name that is empty or leads to a directory
/// has none and stays as it is, and one that begins with its only point has none either.
pub proof fn law_names_without_an_extension(start: Seq<char>, end: Seq<char>, other: Seq<char>)
    requires
        forall|i: int| 0 <= i < end.len() ==> end[i] != '.',
    ensures
        start.len() > 0 && start != seq!['.'] ==> extension(start.push('.')) == Some(
            Seq::<char>::empty(),
        ) && with_extension(start.push('.'), other) == start.push('.') + other,
        extension(Seq::empty()) is None,
        extension(seq!['.']) is None,
        extension(seq!['.', '.']) is None,
        with_extension(Seq::empty(), other) == Seq::<char>::empty(),
        with_extension(seq!['.'], other) == seq!['.'],
        with_extension(seq!['.', '.'], other) == seq!['.', '.'],
        end.len() > 0 ==> with_extension(seq!['.'] + end, other) == (seq!['.'] + end).push('.')
            + other,
{
    let pointed = start.push('.');
    assert(pointed.last() == '.');
    lemma_last_where_is(pointed, is_char('.'), start.len() as int);
    if start.len() > 0 && start != seq!['.'] {
        if pointed == seq!['.', '.'] {
            assert(start =~= pointed.drop_last());
            assert(start =~= seq!['.']);
        }
        if pointed == seq!['.'] {
            assert(pointed.len() == 1);
        }
        assert(pointed.skip(start.len() as int + 1) =~= Seq::<char>::empty());
        assert(pointed.take(start.len() as int) =~= start);
    }
    lemma_last_where_is(Seq::<char>::empty(), is_char('.'), -1);
    lemma_last_where_is(seq!['.'], is_char('.'), 0);
    let hidden = seq!['.'] + end;
    assert(hidden[0] == '.');
    assert forall|j: int| 0 < j < hidden.len() implies !is_char('.')(#[trigger] hidden[j]) by {
        assert(hidden[j] == end[j - 1]);
    }
    lemma_last_where_is(hidden, is_char('.'), 0);
    if end.len() > 0 {
        assert(hidden[1] == end[0]);
        assert(hidden.len() >= 2);
        if hidden == seq!['.', '.'] {
            assert(hidden[1] == '.');
        }
        if hidden == seq!['.'] {
            assert(hidden.len() == 1);
        }
    }
}

} // verus!
