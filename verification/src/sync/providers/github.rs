//! The configuration of the hosted-git provider, and the dense layout in
//! which it travels inside a transfer string.

use vstd::prelude::*;
use vstd::bytes::{
    spec_u32_from_le_bytes, spec_u32_to_le_bytes, spec_u64_from_le_bytes, spec_u64_to_le_bytes,
    u32_from_le_bytes, u32_to_le_bytes, u64_from_le_bytes, u64_to_le_bytes,
    lemma_auto_spec_u32_to_from_le_bytes, lemma_auto_spec_u64_to_from_le_bytes,
};
use vstd::slice::slice_subrange;
use vstd::utf8::{
    decode_utf8, encode_utf8, encode_utf8_decode_utf8, encode_utf8_valid_utf8, is_ascii_chars,
    is_ascii_chars_encode_utf8, valid_utf8,
};

verus! {

/// The text that bytes are the UTF-8 form of, as `String::from_utf8`
/// gives it: nothing where the bytes are no UTF-8.
#[verifier::external_body]
pub(crate) fn string_from_utf8(bytes: Vec<u8>) -> (r: Option<String>)
    ensures
        match r {
            Some(s) => valid_utf8(bytes@) && s@ == decode_utf8(bytes@),
            None => !valid_utf8(bytes@),
        },
{
    String::from_utf8(bytes).ok()
}

/// Bytes below 128 are the UTF-8 form of one character each.
pub proof fn lemma_ascii_bytes(b: Seq<u8>)
    requires
        forall|i: int| 0 <= i < b.len() ==> b[i] < 128,
    ensures
        valid_utf8(b),
        decode_utf8(b) == Seq::new(b.len(), |i: int| b[i] as char),
        encode_utf8(decode_utf8(b)) == b,
{
    let chars = Seq::new(b.len(), |i: int| b[i] as char);
    assert(is_ascii_chars(chars));
    is_ascii_chars_encode_utf8(chars);
    assert(encode_utf8(chars) =~= b);
    encode_utf8_valid_utf8(chars);
    encode_utf8_decode_utf8(chars);
}

/// The digit, in lower case, of a number below 16.
pub open spec fn hex_digit(n: int) -> u8 {
    if n < 10 {
        (48 + n) as u8
    } else {
        (87 + n) as u8
    }
}

/// The number that a hexadecimal digit stands for.
pub open spec fn hex_value(d: u8) -> Option<int> {
    if 48 <= d <= 57 {
        Some(d - 48)
    } else if 97 <= d <= 102 {
        Some(d - 87)
    } else if 65 <= d <= 70 {
        Some(d - 55)
    } else {
        None
    }
}

/// A hexadecimal digit in lower case.
pub open spec fn is_lower_hex(d: u8) -> bool {
    48 <= d <= 57 || 97 <= d <= 102
}

/// The bytes written out in hexadecimal digits, two for each byte.
pub open spec fn hex_text(bytes: Seq<u8>) -> Seq<u8> {
    Seq::new(
        2 * bytes.len(),
        |i: int|
            if i % 2 == 0 {
                hex_digit(bytes[i / 2] as int / 16)
            } else {
                hex_digit(bytes[i / 2] as int % 16)
            },
    )
}

/// The text consists of pairs of hexadecimal digits.
pub open spec fn is_hex_text(text: Seq<u8>) -> bool {
    text.len() % 2 == 0 && forall|i: int| 0 <= i < text.len() ==> hex_value(#[trigger] text[i]) is Some
}

/// The bytes that pairs of hexadecimal digits stand for.
pub open spec fn hex_bytes(text: Seq<u8>) -> Seq<u8> {
    Seq::new(
        text.len() / 2,
        |i: int| (hex_value(text[2 * i])->0 * 16 + hex_value(text[2 * i + 1])->0) as u8,
    )
}

/// Writing bytes out in hexadecimal and reading them back gives the bytes.
pub proof fn lemma_hex_round_trip(bytes: Seq<u8>)
    ensures
        is_hex_text(hex_text(bytes)),
        hex_bytes(hex_text(bytes)) == bytes,
        forall|i: int| 0 <= i < hex_text(bytes).len() ==> is_lower_hex(#[trigger] hex_text(bytes)[i]),
{
    let t = hex_text(bytes);
    assert forall|i: int| 0 <= i < t.len() implies hex_value(#[trigger] t[i]) is Some && is_lower_hex(t[i]) by {
        let n = if i % 2 == 0 {
            bytes[i / 2] as int / 16
        } else {
            bytes[i / 2] as int % 16
        };
        assert(0 <= n < 16);
    }
    assert forall|i: int| 0 <= i < bytes.len() implies hex_bytes(t)[i] == bytes[i] by {
        assert(t[2 * i] == hex_digit(bytes[i] as int / 16));
        assert(t[2 * i + 1] == hex_digit(bytes[i] as int % 16));
        assert(hex_value(hex_digit(bytes[i] as int / 16)) == Some(bytes[i] as int / 16));
        assert(hex_value(hex_digit(bytes[i] as int % 16)) == Some(bytes[i] as int % 16));
    }
    assert(hex_bytes(t) =~= bytes);
}

/// Reading digits in lower case and writing the bytes out gives the digits.
pub proof fn lemma_hex_text_round_trip(text: Seq<u8>)
    requires
        text.len() % 2 == 0,
        forall|i: int| 0 <= i < text.len() ==> is_lower_hex(#[trigger] text[i]),
    ensures
        is_hex_text(text),
        hex_text(hex_bytes(text)) == text,
{
    let b = hex_bytes(text);
    assert forall|i: int| 0 <= i < text.len() implies hex_text(b)[i] == text[i] by {
        let k = i / 2;
        assert(is_lower_hex(text[2 * k]));
        assert(is_lower_hex(text[2 * k + 1]));
        let hi = hex_value(text[2 * k])->0;
        let lo = hex_value(text[2 * k + 1])->0;
        assert(0 <= hi < 16 && 0 <= lo < 16);
        assert(b[k] == (hi * 16 + lo) as u8);
        assert((hi * 16 + lo) / 16 == hi);
        assert((hi * 16 + lo) % 16 == lo);
        assert(hex_digit(hi) == text[2 * k]);
        assert(hex_digit(lo) == text[2 * k + 1]);
    }
    assert(hex_text(b) =~= text);
}

/// The number that a hexadecimal digit stands for.
pub fn digit_value(d: u8) -> (r: Option<u8>)
    ensures
        match r {
            Some(v) => hex_value(d) == Some(v as int) && v < 16,
            None => hex_value(d) is None,
        },
{
    if 48 <= d && d <= 57 {
        Some(d - 48)
    } else if 97 <= d && d <= 102 {
        Some(d - 87)
    } else if 65 <= d && d <= 70 {
        Some(d - 55)
    } else {
        None
    }
}

/// The digit, in lower case, of a number below 16.
pub fn digit_of(n: u8) -> (r: u8)
    requires
        n < 16,
    ensures
        r == hex_digit(n as int),
        r < 128,
{
    if n < 10 {
        48 + n
    } else {
        87 + n
    }
}

/// The bytes written out in hexadecimal digits in lower case, two for
/// each byte.
pub fn hex_string(data: &[u8]) -> (r: String)
    requires
        2 * data@.len() <= usize::MAX,
    ensures
        encode_utf8(r@) == hex_text(data@),
{
    let mut out: Vec<u8> = Vec::new();
    let mut i: usize = 0;
    while i < data.len()
        invariant
            i <= data.len(),
            out@.len() == 2 * i,
            forall|j: int| 0 <= j < 2 * i ==> out@[j] == hex_text(data@)[j],
            forall|j: int| 0 <= j < 2 * i ==> out@[j] < 128,
        decreases data.len() - i,
    {
        let b = data[i];
        out.push(digit_of(b / 16));
        out.push(digit_of(b % 16));
        assert((2 * i) / 2 == i && (2 * i + 1) / 2 == i);
        i += 1;
    }
    proof {
        assert(out@ =~= hex_text(data@));
        lemma_ascii_bytes(out@);
    }
    match string_from_utf8(out) {
        Some(s) => s,
        None => String::new(),
    }
}

/// The bytes that pairs of hexadecimal digits stand for; nothing where the
/// text is no such pairs.
pub fn unhex(text: &[u8]) -> (r: Option<Vec<u8>>)
    ensures
        match r {
            Some(b) => is_hex_text(text@) && b@ == hex_bytes(text@),
            None => !is_hex_text(text@),
        },
{
    if text.len() % 2 != 0 {
        return None;
    }
    let mut out: Vec<u8> = Vec::new();
    let mut i: usize = 0;
    while i < text.len() / 2
        invariant
            i <= text.len() / 2,
            text.len() % 2 == 0,
            out@.len() == i,
            forall|j: int| 0 <= j < 2 * i ==> hex_value(#[trigger] text@[j]) is Some,
            forall|j: int| 0 <= j < i ==> out@[j] == hex_bytes(text@)[j],
        decreases text.len() / 2 - i,
    {
        let hi = digit_value(text[2 * i]);
        let lo = digit_value(text[2 * i + 1]);
        match (hi, lo) {
            (Some(h), Some(l)) => {
                out.push(h * 16 + l);
            },
            _ => {
                assert(hex_value(text@[2 * i as int]) is None || hex_value(text@[2 * i + 1]) is None);
                return None;
            },
        }
        i += 1;
    }
    assert(out@ =~= hex_bytes(text@));
    Some(out)
}

/// The bytes behind their length: one byte for a length below 255, else
/// the byte 255 and the length in four bytes, lowest first.
pub open spec fn sized(bytes: Seq<u8>) -> Seq<u8> {
    if bytes.len() < 255 {
        seq![bytes.len() as u8] + bytes
    } else {
        seq![255u8] + spec_u32_to_le_bytes(bytes.len() as u32) + bytes
    }
}

/// Bytes that were read behind their length, and how many bytes both took.
pub struct SizedBytes {
    pub bytes: Seq<u8>,
    pub used: int,
}

/// The bytes that stand behind their length at the start of `s`, and how
/// many bytes both take.
pub open spec fn read_sized(s: Seq<u8>) -> Option<SizedBytes> {
    if s.len() == 0 {
        None
    } else if s[0] != 255 {
        if s.len() < 1 + s[0] {
            None
        } else {
            Some(SizedBytes { bytes: s.subrange(1, 1 + s[0]), used: 1 + s[0] })
        }
    } else if s.len() < 5 || s.len() < 5 + spec_u32_from_le_bytes(s.subrange(1, 5)) {
        None
    } else {
        Some(
            SizedBytes {
                bytes: s.subrange(5, 5 + spec_u32_from_le_bytes(s.subrange(1, 5))),
                used: 5 + spec_u32_from_le_bytes(s.subrange(1, 5)),
            },
        )
    }
}

/// Reading bytes behind their length gives the bytes, whatever follows.
pub proof fn lemma_sized_round_trip(bytes: Seq<u8>, rest: Seq<u8>)
    requires
        bytes.len() <= u32::MAX,
    ensures
        read_sized(sized(bytes) + rest) == Some(SizedBytes { bytes, used: sized(bytes).len() as int }),
{
    lemma_auto_spec_u32_to_from_le_bytes();
    let s = sized(bytes) + rest;
    if bytes.len() < 255 {
        assert(s[0] == bytes.len() as u8);
        assert(s.subrange(1, 1 + s[0]) =~= bytes);
    } else {
        let l = spec_u32_to_le_bytes(bytes.len() as u32);
        assert(l.len() == 4);
        assert(s[0] == 255u8);
        assert(s.subrange(1, 5) =~= l);
        assert(s.subrange(5, 5 + bytes.len() as int) =~= bytes);
    }
}

/// The text in UTF-8 behind its length.
pub fn sizeopt_string(s: &str) -> (r: Option<Vec<u8>>)
    ensures
        match r {
            Some(b) => b@ == sized(encode_utf8(s@)) && encode_utf8(s@).len() <= u32::MAX,
            None => encode_utf8(s@).len() > u32::MAX,
        },
{
    let bytes = s.as_bytes();
    let len = bytes.len();
    let mut buf: Vec<u8> = Vec::new();
    if len < 255 {
        buf.push(len as u8);
    } else {
        if len > u32::MAX as usize {
            return None;
        }
        buf.push(255);
        let mut l = u32_to_le_bytes(len as u32);
        buf.append(&mut l);
    }
    let ghost head = buf@;
    let mut i: usize = 0;
    while i < len
        invariant
            i <= len,
            len == bytes@.len(),
            buf@ == head + bytes@.take(i as int),
        decreases len - i,
    {
        buf.push(bytes[i]);
        assert(bytes@.take(i + 1) =~= bytes@.take(i as int).push(bytes@[i as int]));
        i += 1;
    }
    assert(bytes@.take(len as int) =~= bytes@);
    assert(buf@ =~= sized(encode_utf8(s@)));
    Some(buf)
}

/// The text that stands behind its length at the start of `s`, and how
/// many bytes both take; nothing where no text stands there.
pub fn read_sizeopt_string(s: &[u8]) -> (r: Option<(String, usize)>)
    ensures
        match r {
            Some((text, used)) => read_sized(s@) is Some && valid_utf8(read_sized(s@)->0.bytes) && text@
                == decode_utf8(read_sized(s@)->0.bytes) && used == read_sized(s@)->0.used,
            None => read_sized(s@) is None || !valid_utf8(read_sized(s@)->0.bytes),
        },
{
    if s.len() == 0 {
        return None;
    }
    let first = s[0];
    let (start, len): (usize, usize) = if first != 255 {
        (1, first as usize)
    } else {
        if s.len() < 5 {
            return None;
        }
        (5, u32_from_le_bytes(slice_subrange(s, 1, 5)) as usize)
    };
    if s.len() - start < len {
        return None;
    }
    let mut bytes: Vec<u8> = Vec::new();
    let mut i: usize = 0;
    while i < len
        invariant
            i <= len,
            start + len <= s.len(),
            bytes@ == s@.subrange(start as int, start + i),
        decreases len - i,
    {
        bytes.push(s[start + i]);
        assert(s@.subrange(start as int, start + i + 1) =~= s@.subrange(start as int, start + i).push(
            s@[start + i],
        ));
        i += 1;
    }
    match string_from_utf8(bytes) {
        Some(text) => Some((text, start + len)),
        None => None,
    }
}

/// Copies eight bytes into an array.
pub fn clone_into_array(slice: &[u8]) -> (r: [u8; 8])
    requires
        slice@.len() == 8,
    ensures
        r@ == slice@,
{
    let mut a = [0u8; 8];
    let mut i: usize = 0;
    while i < 8
        invariant
            i <= 8,
            slice@.len() == 8,
            forall|j: int| 0 <= j < i ==> a@[j] == slice@[j],
        decreases 8 - i,
    {
        a[i] = slice[i];
        i += 1;
    }
    assert(a@ =~= slice@);
    a
}

/// The configuration of the provider, as mathematical values.
#[verifier::ext_equal]
pub struct ConfigView {
    pub username: Seq<char>,
    pub access_token: Seq<char>,
    pub access_token_id: u64,
    pub repo_name: Seq<char>,
}

/// How to reach a repository: whose it is, its name, and the token that
/// grants access.
pub struct Config {
    pub username: String,
    pub access_token: String,
    pub access_token_id: u64,
    pub repo_name: String,
}

impl View for Config {
    type V = ConfigView;

    open spec fn view(&self) -> ConfigView {
        ConfigView {
            username: self.username@,
            access_token: self.access_token@,
            access_token_id: self.access_token_id,
            repo_name: self.repo_name@,
        }
    }
}

/// The configuration can be packed: the token is forty hexadecimal
/// digits, and the texts are not longer than four bytes can say.
pub open spec fn packable(c: ConfigView) -> bool {
    &&& encode_utf8(c.username).len() <= u32::MAX
    &&& encode_utf8(c.repo_name).len() <= u32::MAX
    &&& encode_utf8(c.access_token).len() == 40
    &&& is_hex_text(encode_utf8(c.access_token))
}

/// The token of the configuration is written in lower case.
pub open spec fn canonical(c: ConfigView) -> bool {
    packable(c) && forall|i: int| 0 <= i < 40 ==> is_lower_hex(#[trigger] encode_utf8(c.access_token)[i])
}

/// The packed form of a configuration: both texts behind their lengths, the
/// token in twenty bytes, the number of the token in eight bytes.
pub open spec fn packed(c: ConfigView) -> Seq<u8> {
    sized(encode_utf8(c.username)) + sized(encode_utf8(c.repo_name)) + hex_bytes(
        encode_utf8(c.access_token),
    ) + spec_u64_to_le_bytes(c.access_token_id)
}

/// The configuration that bytes are the packed form of. Bytes behind the
/// packed form do not count.
pub open spec fn unpacked(data: Seq<u8>) -> Option<ConfigView> {
    match read_sized(data) {
        None => None,
        Some(name) => match read_sized(data.skip(name.used)) {
            None => None,
            Some(repo) => if !valid_utf8(name.bytes) || !valid_utf8(repo.bytes) || data.len()
                < name.used + repo.used + 28 {
                None
            } else {
                Some(
                    ConfigView {
                        username: decode_utf8(name.bytes),
                        access_token: decode_utf8(
                            hex_text(
                                data.subrange(name.used + repo.used, name.used + repo.used + 20),
                            ),
                        ),
                        access_token_id: spec_u64_from_le_bytes(
                            data.subrange(name.used + repo.used + 20, name.used + repo.used + 28),
                        ),
                        repo_name: decode_utf8(repo.bytes),
                    },
                )
            },
        },
    }
}

impl Config {
    /// The packed form of the configuration; nothing where it cannot be packed.
    pub fn compress(&self) -> (r: Option<Vec<u8>>)
        ensures
            match r {
                Some(b) => packable(self@) && b@ == packed(self@),
                None => !packable(self@),
            },
    {
        let token = self.access_token.as_str().as_bytes();
        if token.len() != 40 {
            return None;
        }
        let token_bytes = unhex(token)?;
        let mut result = sizeopt_string(self.username.as_str())?;
        let mut repo = sizeopt_string(self.repo_name.as_str())?;
        result.append(&mut repo);
        let mut t = token_bytes;
        result.append(&mut t);
        let mut id = u64_to_le_bytes(self.access_token_id);
        result.append(&mut id);
        Some(result)
    }

    /// The configuration that bytes are the packed form of; nothing where
    /// they are none.
    pub fn decompress(data: &[u8]) -> (r: Option<Config>)
        ensures
            match r {
                Some(c) => unpacked(data@) == Some(c@),
                None => unpacked(data@) is None,
            },
    {
        let (username, used) = match read_sizeopt_string(data) {
            Some(x) => x,
            None => {
                return None;
            },
        };
        let rest = slice_subrange(data, used, data.len());
        assert(rest@ =~= data@.skip(used as int));
        let (repo_name, more) = match read_sizeopt_string(rest) {
            Some(x) => x,
            None => {
                return None;
            },
        };
        if data.len() - used - more < 28 {
            return None;
        }
        let index = used + more;
        let access_token = hex_string(slice_subrange(data, index, index + 20));
        let access_token_id = u64_from_le_bytes(slice_subrange(data, index + 20, index + 28));
        proof {
            let t = hex_text(data@.subrange(index as int, index + 20));
            lemma_hex_round_trip(data@.subrange(index as int, index + 20));
            lemma_ascii_bytes(t);
            encode_utf8_decode_utf8(access_token@);
        }
        Some(Config { username, access_token, access_token_id, repo_name })
    }
}

/// Unpacking the packed form of a configuration whose token is written in
/// lower case gives the configuration back, whatever follows the packed form.
pub proof fn packed_round_trip(c: ConfigView, rest: Seq<u8>)
    requires
        canonical(c),
    ensures
        unpacked(packed(c) + rest) == Some(c),
{
    lemma_auto_spec_u64_to_from_le_bytes();
    let name = encode_utf8(c.username);
    let repo = encode_utf8(c.repo_name);
    let token = encode_utf8(c.access_token);
    let tb = hex_bytes(token);
    let id = spec_u64_to_le_bytes(c.access_token_id);
    let data = packed(c) + rest;
    let after_name = sized(repo) + tb + id + rest;
    assert(data =~= sized(name) + after_name);
    lemma_sized_round_trip(name, after_name);
    let used = sized(name).len() as int;
    assert(data.skip(used) =~= after_name);
    assert(after_name =~= sized(repo) + (tb + id + rest));
    lemma_sized_round_trip(repo, tb + id + rest);
    let more = sized(repo).len() as int;
    encode_utf8_valid_utf8(c.username);
    encode_utf8_valid_utf8(c.repo_name);
    encode_utf8_decode_utf8(c.username);
    encode_utf8_decode_utf8(c.repo_name);
    encode_utf8_decode_utf8(c.access_token);
    assert(tb.len() == 20);
    assert(id.len() == 8);
    assert(data.subrange(used + more, used + more + 20) =~= tb);
    assert(data.subrange(used + more + 20, used + more + 28) =~= id);
    lemma_hex_text_round_trip(token);
    assert(hex_text(tb) == token);
    assert(unpacked(data)->0 =~= c);
}

} // verus!
