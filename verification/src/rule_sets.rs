use vstd::prelude::*;
use vstd::utf8::{decode_utf8, valid_utf8};

use std::sync::Arc;

use crate::config::RuleSetConfig;
use crate::text::{
    str_equal,
    chars_of, contains, lower, spec_contains, spec_lower, spec_trim_end_char, string_from_chars,
    trim_end_char, utf8_decode, decimal_chars, extend_chars, spec_decimal,
};

verus! {

broadcast use vstd::string::group_string_axioms;

/// Largest rule-set file accepted, compressed.
pub const MAX_COMPRESSED_RULE_SET_BYTES: usize = 16 * 1024 * 1024;

/// Largest rule-set payload accepted, decompressed.
pub const MAX_UNCOMPRESSED_RULE_SET_BYTES: usize = 64 * 1024 * 1024;

/// Most rules of one file, and most children of one logical rule.
pub const MAX_RULES: usize = 500_000;

/// Deepest nesting of logical rules.
pub const MAX_LOGICAL_RULE_DEPTH: usize = 100;

/// Most values of one rule item.
pub const MAX_RULE_ITEM_VALUES: usize = 500_000;

/// sing-box SRS rule item: a domain matcher.
pub const RULE_ITEM_DOMAIN: u8 = 2;

/// sing-box SRS rule item: domain keywords.
pub const RULE_ITEM_DOMAIN_KEYWORD: u8 = 3;

/// sing-box SRS rule item: domain regular expressions.
pub const RULE_ITEM_DOMAIN_REGEX: u8 = 4;

/// sing-box SRS rule item that ends a default rule.
pub const RULE_ITEM_FINAL: u8 = 255;

/// Trie label that ends a key matching every longer domain (a prefix key).
pub const DOMAIN_PREFIX_LABEL: u8 = 13;

/// Trie label that ends a key matching its own subdomains (a suffix key).
pub const DOMAIN_ROOT_LABEL: u8 = 10;

/// Why an SRS rule set was refused.
#[derive(Debug, Clone, Copy, PartialEq, Eq, Structural)]
pub enum SrsError {
    /// The payload ended inside a value.
    Truncated,
    /// A varint's tenth byte carries more than one bit.
    VarintOverflow,
    /// A varint runs over ten bytes.
    VarintTooLong,
    /// A length does not fit `usize`.
    LengthTooLarge,
    /// A length or count is over its limit.
    LimitExceeded,
    /// A string value is not UTF-8.
    InvalidUtf8,
    /// The file is shorter than its four-byte header.
    ShortHeader,
    /// The file does not start with `SRS`.
    BadMagic,
    /// The format version is not 1 to 5.
    UnsupportedVersion { version: u8 },
    /// The zlib payload does not decompress.
    Decompress,
    /// The decompressed payload is over its limit.
    PayloadTooLarge,
    /// Logical rules nest too deeply.
    DepthExceeded,
    /// A rule is neither a default nor a logical rule.
    UnknownRuleType { kind: u8 },
    /// A rule item is not a domain condition.
    NotDomainBased { item: u8 },
    /// A default rule holds no domain condition.
    NoDomainCondition,
    /// A logical rule has no child rules.
    EmptyLogicalRule,
    /// A logical rule's mode is neither `and` nor `or`.
    UnknownLogicalMode { mode: u8 },
    /// A domain regular expression does not compile.
    InvalidRegex,
    /// A domain matcher's label bitmap is empty.
    EmptyLabelBitmap,
    /// A domain matcher's label bitmap has no set bit.
    NoTerminator,
    /// A domain matcher's label bitmap does not describe a trie.
    InvalidLabelBitmap,
    /// A domain matcher has a different number of labels than its bitmap.
    LabelCountMismatch,
}

impl SrsError {
    /// The text that explains the error.
    pub open spec fn spec_message(self) -> Seq<char> {
        match self {
            SrsError::Truncated => "unexpected end of SRS payload"@,
            SrsError::VarintOverflow => "SRS unsigned varint overflows u64"@,
            SrsError::VarintTooLong => "SRS unsigned varint is too long"@,
            SrsError::LengthTooLarge => "SRS length does not fit usize"@,
            SrsError::LimitExceeded => "SRS length exceeds its item limit"@,
            SrsError::InvalidUtf8 => "SRS string contains invalid UTF-8"@,
            SrsError::ShortHeader => "sing-box SRS file is shorter than its header"@,
            SrsError::BadMagic => "invalid sing-box SRS magic"@,
            SrsError::UnsupportedVersion { version } => "unsupported sing-box SRS version "@
                + spec_decimal(version as nat),
            SrsError::Decompress => "decompress sing-box SRS payload"@,
            SrsError::PayloadTooLarge => "sing-box SRS payload exceeds the 67108864 byte limit"@,
            SrsError::DepthExceeded => "SRS logical rule nesting exceeds 100"@,
            SrsError::UnknownRuleType { kind } => "unknown SRS rule type "@ + spec_decimal(
                kind as nat,
            ),
            SrsError::NotDomainBased { item } => "SRS rule item "@ + spec_decimal(item as nat)
                + " is not domain-based; EdgeSteer only accepts domain rule sets"@,
            SrsError::NoDomainCondition => "SRS rule does not contain a domain condition"@,
            SrsError::EmptyLogicalRule => "SRS logical rule has no child rules"@,
            SrsError::UnknownLogicalMode { mode } => "unknown SRS logical mode "@ + spec_decimal(
                mode as nat,
            ),
            SrsError::InvalidRegex => "SRS domain_regex does not compile"@,
            SrsError::EmptyLabelBitmap => "SRS domain matcher has an empty label bitmap"@,
            SrsError::NoTerminator => "SRS domain matcher has no terminator"@,
            SrsError::InvalidLabelBitmap => "SRS domain matcher has an invalid label bitmap"@,
            SrsError::LabelCountMismatch => "SRS domain matcher label count does not match its bitmap"@,
        }
    }

    pub fn message(&self) -> (r: String)
        ensures
            r@ == self.spec_message(),
    {
        proof {
            reveal_strlit("");
        }
        match self {
            SrsError::Truncated => String::from_str("unexpected end of SRS payload"),
            SrsError::VarintOverflow => String::from_str("SRS unsigned varint overflows u64"),
            SrsError::VarintTooLong => String::from_str("SRS unsigned varint is too long"),
            SrsError::LengthTooLarge => String::from_str("SRS length does not fit usize"),
            SrsError::LimitExceeded => String::from_str("SRS length exceeds its item limit"),
            SrsError::InvalidUtf8 => String::from_str("SRS string contains invalid UTF-8"),
            SrsError::ShortHeader => String::from_str("sing-box SRS file is shorter than its header"),
            SrsError::BadMagic => String::from_str("invalid sing-box SRS magic"),
            SrsError::UnsupportedVersion { version } => numbered_message(
                "unsupported sing-box SRS version ",
                *version,
                "",
            ),
            SrsError::Decompress => String::from_str("decompress sing-box SRS payload"),
            SrsError::PayloadTooLarge => String::from_str(
                "sing-box SRS payload exceeds the 67108864 byte limit",
            ),
            SrsError::DepthExceeded => String::from_str("SRS logical rule nesting exceeds 100"),
            SrsError::UnknownRuleType { kind } => numbered_message("unknown SRS rule type ", *kind, ""),
            SrsError::NotDomainBased { item } => numbered_message(
                "SRS rule item ",
                *item,
                " is not domain-based; EdgeSteer only accepts domain rule sets",
            ),
            SrsError::NoDomainCondition => String::from_str(
                "SRS rule does not contain a domain condition",
            ),
            SrsError::EmptyLogicalRule => String::from_str("SRS logical rule has no child rules"),
            SrsError::UnknownLogicalMode { mode } => numbered_message(
                "unknown SRS logical mode ",
                *mode,
                "",
            ),
            SrsError::InvalidRegex => String::from_str("SRS domain_regex does not compile"),
            SrsError::EmptyLabelBitmap => String::from_str(
                "SRS domain matcher has an empty label bitmap",
            ),
            SrsError::NoTerminator => String::from_str("SRS domain matcher has no terminator"),
            SrsError::InvalidLabelBitmap => String::from_str(
                "SRS domain matcher has an invalid label bitmap",
            ),
            SrsError::LabelCountMismatch => String::from_str(
                "SRS domain matcher label count does not match its bitmap",
            ),
        }
    }
}

/// `before`, the number in decimal, then `after`.
fn numbered_message(before: &str, n: u8, after: &str) -> (r: String)
    ensures
        r@ == before@ + spec_decimal(n as nat) + after@,
{
    let mut out = chars_of(before);
    let d = decimal_chars(n as u64);
    extend_chars(&mut out, d.as_slice());
    let a = chars_of(after);
    extend_chars(&mut out, a.as_slice());
    assert(out@ =~= before@ + spec_decimal(n as nat) + after@);
    string_from_chars(&out)
}

/// Reads one byte at `p`.
pub open spec fn spec_read_u8(b: Seq<u8>, p: int) -> Result<(u8, int), SrsError> {
    if 0 <= p < b.len() {
        Ok((b[p], p + 1))
    } else {
        Err(SrsError::Truncated)
    }
}

/// The unsigned LEB128 varint at `p`, from its byte `index` on, with the
/// bits `acc` gathered from the bytes before.
pub open spec fn spec_uvarint_from(b: Seq<u8>, p: int, index: int, acc: u64) -> Result<
    (u64, int),
    SrsError,
>
    decreases 10 - index,
{
    if index < 0 || index >= 10 {
        Err(SrsError::VarintTooLong)
    } else if !(0 <= p + index < b.len()) {
        Err(SrsError::Truncated)
    } else {
        let byte = b[p + index];
        let bits = byte & 0x7f;
        if index == 9 && bits > 1 {
            Err(SrsError::VarintOverflow)
        } else {
            let value = acc | ((bits as u64) << ((index * 7) as u64));
            if byte & 0x80 == 0 {
                Ok((value, p + index + 1))
            } else {
                spec_uvarint_from(b, p, index + 1, value)
            }
        }
    }
}

/// The unsigned varint at `p`: seven bits a byte, least significant first,
/// at most ten bytes and 64 bits.
pub open spec fn spec_uvarint(b: Seq<u8>, p: int) -> Result<(u64, int), SrsError> {
    spec_uvarint_from(b, p, 0, 0)
}

/// A varint length or count, at most `limit`.
pub open spec fn spec_read_len(b: Seq<u8>, p: int, limit: int) -> Result<(usize, int), SrsError> {
    match spec_uvarint(b, p) {
        Err(e) => Err(e),
        Ok((v, q)) => if v > usize::MAX {
            Err(SrsError::LengthTooLarge)
        } else if v > limit {
            Err(SrsError::LimitExceeded)
        } else {
            Ok((v as usize, q))
        },
    }
}

/// The `n` bytes at `p`.
pub open spec fn spec_read_exact(b: Seq<u8>, p: int, n: int) -> Result<(Seq<u8>, int), SrsError> {
    if 0 <= p && 0 <= n && p + n <= b.len() {
        Ok((b.subrange(p, p + n), p + n))
    } else {
        Err(SrsError::Truncated)
    }
}

/// A byte string: its varint length, then its bytes.
pub open spec fn spec_read_bytes(b: Seq<u8>, p: int) -> Result<(Seq<u8>, int), SrsError> {
    match spec_read_len(b, p, MAX_UNCOMPRESSED_RULE_SET_BYTES as int) {
        Err(e) => Err(e),
        Ok((n, q)) => spec_read_exact(b, q, n as int),
    }
}

/// The big-endian value of a byte string.
pub open spec fn spec_be_value(s: Seq<u8>) -> nat
    decreases s.len(),
{
    if s.len() == 0 {
        0
    } else {
        spec_be_value(s.drop_last()) * 256 + s.last() as nat
    }
}

/// Consecutive big-endian 64-bit words.
pub open spec fn spec_be_words(s: Seq<u8>) -> Seq<u64> {
    Seq::new(s.len() / 8, |i: int| spec_be_value(s.subrange(8 * i, 8 * i + 8)) as u64)
}

/// A list of 64-bit words: its varint count, then each word big-endian.
pub open spec fn spec_read_u64s(b: Seq<u8>, p: int) -> Result<(Seq<u64>, int), SrsError> {
    match spec_read_len(b, p, (MAX_UNCOMPRESSED_RULE_SET_BYTES / 8) as int) {
        Err(e) => Err(e),
        Ok((n, q)) => match spec_read_exact(b, q, 8 * n) {
            Err(e) => Err(e),
            Ok((bytes, r)) => Ok((spec_be_words(bytes), r)),
        },
    }
}

/// `n` UTF-8 strings, each a byte string.
pub open spec fn spec_read_n_strings(b: Seq<u8>, p: int, n: nat) -> Result<
    (Seq<Seq<char>>, int),
    SrsError,
>
    decreases n,
{
    if n == 0 {
        Ok((Seq::empty(), p))
    } else {
        match spec_read_bytes(b, p) {
            Err(e) => Err(e),
            Ok((bytes, q)) => if !valid_utf8(bytes) {
                Err(SrsError::InvalidUtf8)
            } else {
                match spec_read_n_strings(b, q, (n - 1) as nat) {
                    Err(e) => Err(e),
                    Ok((rest, r)) => Ok((seq![decode_utf8(bytes)] + rest, r)),
                }
            },
        }
    }
}

/// A list of strings: its varint count, then each string.
pub open spec fn spec_read_strings(b: Seq<u8>, p: int) -> Result<(Seq<Seq<char>>, int), SrsError> {
    match spec_read_len(b, p, MAX_RULE_ITEM_VALUES as int) {
        Err(e) => Err(e),
        Ok((n, q)) => spec_read_n_strings(b, q, n as nat),
    }
}

/// A reader over an SRS payload.
pub struct SrsReader<'a> {
    bytes: &'a [u8],
    pos: usize,
}

impl<'a> SrsReader<'a> {
    /// The payload.
    pub closed spec fn data(&self) -> Seq<u8> {
        self.bytes@
    }

    /// The offset of the next byte to read.
    pub closed spec fn pos(&self) -> int {
        self.pos as int
    }

    /// The read position lies within the payload.
    pub closed spec fn wf(&self) -> bool {
        self.pos <= self.bytes@.len()
    }

    pub fn new(bytes: &'a [u8]) -> (r: SrsReader<'a>)
        ensures
            r.data() == bytes@,
            r.pos() == 0,
            r.wf(),
    {
        SrsReader { bytes, pos: 0 }
    }

    pub fn read_u8(&mut self) -> (r: Result<u8, SrsError>)
        requires
            old(self).wf(),
        ensures
            final(self).wf(),
            final(self).data() == old(self).data(),
            r matches Ok(v) ==> spec_read_u8(old(self).data(), old(self).pos()) == Ok::<
                (u8, int),
                SrsError,
            >((v, final(self).pos())),
            r matches Err(e) ==> spec_read_u8(old(self).data(), old(self).pos()) == Err::<
                (u8, int),
                SrsError,
            >(e),
    {
        if self.pos < self.bytes.len() {
            let v = self.bytes[self.pos];
            self.pos = self.pos + 1;
            Ok(v)
        } else {
            Err(SrsError::Truncated)
        }
    }

    pub fn read_bool(&mut self) -> (r: Result<bool, SrsError>)
        requires
            old(self).wf(),
        ensures
            final(self).wf(),
            final(self).data() == old(self).data(),
            r matches Ok(v) ==> spec_read_u8(old(self).data(), old(self).pos()) matches Ok((
                byte,
                q,
            )) && v == (byte != 0) && q == final(self).pos(),
            r matches Err(e) ==> spec_read_u8(old(self).data(), old(self).pos()) == Err::<
                (u8, int),
                SrsError,
            >(e),
    {
        let byte = self.read_u8()?;
        Ok(byte != 0)
    }

    pub fn read_uvarint(&mut self) -> (r: Result<u64, SrsError>)
        requires
            old(self).wf(),
        ensures
            final(self).wf(),
            final(self).data() == old(self).data(),
            r matches Ok(v) ==> spec_uvarint(old(self).data(), old(self).pos()) == Ok::<
                (u64, int),
                SrsError,
            >((v, final(self).pos())),
            r matches Err(e) ==> spec_uvarint(old(self).data(), old(self).pos()) == Err::<
                (u64, int),
                SrsError,
            >(e),
    {
        let ghost b = self.data();
        let ghost p = self.pos();
        let mut value: u64 = 0;
        let mut index: u64 = 0;
        while index < 10
            invariant
                index <= 10,
                self.wf(),
                b == old(self).data(),
                p == old(self).pos(),
                self.data() == b,
                self.pos() == p + index,
                spec_uvarint(b, p) == spec_uvarint_from(b, p, index as int, value),
            decreases 10 - index,
        {
            let byte = self.read_u8()?;
            let bits = byte & 0x7f;
            if index == 9 && bits > 1 {
                return Err(SrsError::VarintOverflow);
            }
            value = value | ((bits as u64) << (index * 7));
            if byte & 0x80 == 0 {
                return Ok(value);
            }
            index += 1;
        }
        Err(SrsError::VarintTooLong)
    }

    pub fn read_len(&mut self, limit: usize) -> (r: Result<usize, SrsError>)
        requires
            old(self).wf(),
        ensures
            final(self).wf(),
            final(self).data() == old(self).data(),
            r matches Ok(v) ==> spec_read_len(old(self).data(), old(self).pos(), limit as int)
                == Ok::<(usize, int), SrsError>((v, final(self).pos())),
            r matches Err(e) ==> spec_read_len(old(self).data(), old(self).pos(), limit as int)
                == Err::<(usize, int), SrsError>(e),
    {
        let value = self.read_uvarint()?;
        if value > usize::MAX as u64 {
            return Err(SrsError::LengthTooLarge);
        }
        let value = value as usize;
        if value > limit {
            return Err(SrsError::LimitExceeded);
        }
        Ok(value)
    }

    pub fn read_exact(&mut self, length: usize) -> (r: Result<Vec<u8>, SrsError>)
        requires
            old(self).wf(),
        ensures
            final(self).wf(),
            final(self).data() == old(self).data(),
            r matches Ok(v) ==> spec_read_exact(old(self).data(), old(self).pos(), length as int)
                == Ok::<(Seq<u8>, int), SrsError>((v@, final(self).pos())),
            r matches Err(e) ==> spec_read_exact(old(self).data(), old(self).pos(), length as int)
                == Err::<(Seq<u8>, int), SrsError>(e),
    {
        if length > self.bytes.len() - self.pos {
            return Err(SrsError::Truncated);
        }
        let end = self.pos + length;
        let mut value: Vec<u8> = Vec::new();
        let mut i = self.pos;
        while i < end
            invariant
                self.pos <= i <= end <= self.bytes@.len(),
                value@ == self.bytes@.subrange(self.pos as int, i as int),
            decreases end - i,
        {
            value.push(self.bytes[i]);
            assert(self.bytes@.subrange(self.pos as int, i as int).push(self.bytes@[i as int])
                =~= self.bytes@.subrange(self.pos as int, i + 1));
            i += 1;
        }
        self.pos = end;
        Ok(value)
    }

    pub fn read_bytes(&mut self) -> (r: Result<Vec<u8>, SrsError>)
        requires
            old(self).wf(),
        ensures
            final(self).wf(),
            final(self).data() == old(self).data(),
            r matches Ok(v) ==> spec_read_bytes(old(self).data(), old(self).pos()) == Ok::<
                (Seq<u8>, int),
                SrsError,
            >((v@, final(self).pos())),
            r matches Err(e) ==> spec_read_bytes(old(self).data(), old(self).pos()) == Err::<
                (Seq<u8>, int),
                SrsError,
            >(e),
    {
        let length = self.read_len(MAX_UNCOMPRESSED_RULE_SET_BYTES)?;
        self.read_exact(length)
    }

    pub fn read_u64s(&mut self) -> (r: Result<Vec<u64>, SrsError>)
        requires
            old(self).wf(),
        ensures
            final(self).wf(),
            final(self).data() == old(self).data(),
            r matches Ok(v) ==> spec_read_u64s(old(self).data(), old(self).pos()) == Ok::<
                (Seq<u64>, int),
                SrsError,
            >((v@, final(self).pos())),
            r matches Err(e) ==> spec_read_u64s(old(self).data(), old(self).pos()) == Err::<
                (Seq<u64>, int),
                SrsError,
            >(e),
    {
        let count = self.read_len(MAX_UNCOMPRESSED_RULE_SET_BYTES / 8)?;
        let bytes = self.read_exact(count * 8)?;
        let words = be_words(&bytes);
        Ok(words)
    }

    pub fn read_strings(&mut self) -> (r: Result<Vec<String>, SrsError>)
        requires
            old(self).wf(),
        ensures
            final(self).wf(),
            final(self).data() == old(self).data(),
            r matches Ok(v) ==> spec_read_strings(old(self).data(), old(self).pos()) matches Ok((
                s,
                q,
            )) && q == final(self).pos() && v@.len() == s.len() && forall|k: int|
                0 <= k < s.len() ==> #[trigger] v@[k]@ == s[k],
            r matches Err(e) ==> spec_read_strings(old(self).data(), old(self).pos()) == Err::<
                (Seq<Seq<char>>, int),
                SrsError,
            >(e),
    {
        let ghost b = self.data();
        let count = self.read_len(MAX_RULE_ITEM_VALUES)?;
        let ghost start = self.pos();
        let mut values: Vec<String> = Vec::new();
        let mut i: usize = 0;
        while i < count
            invariant
                i <= count,
                self.wf(),
                b == old(self).data(),
                spec_read_len(b, old(self).pos(), MAX_RULE_ITEM_VALUES as int) == Ok::<
                    (usize, int),
                    SrsError,
                >((count, start)),
                self.data() == b,
                values@.len() == i,
                spec_read_n_strings(b, start, count as nat) == spec_prepend_strings(
                    Seq::new(i as nat, |k: int| values@[k]@),
                    spec_read_n_strings(b, self.pos(), (count - i) as nat),
                ),
            decreases count - i,
        {
            let ghost before = values@;
            let bytes = self.read_bytes()?;
            let ghost bytes_view = bytes@;
            match utf8_decode(bytes) {
                Some(text) => {
                    values.push(text);
                },
                None => {
                    return Err(SrsError::InvalidUtf8);
                },
            }
            proof {
                let done = Seq::new(i as nat, |k: int| before[k]@);
                let x = decode_utf8(bytes_view);
                assert(done + seq![x] =~= Seq::new((i + 1) as nat, |k: int| values@[k]@));
                match spec_read_n_strings(b, self.pos(), (count - i - 1) as nat) {
                    Ok((rest, q)) => {
                        assert((done + seq![x]) + rest =~= done + (seq![x] + rest));
                    },
                    Err(_) => {},
                }
            }
            i += 1;
        }
        proof {
            assert(Seq::new(count as nat, |k: int| values@[k]@) + Seq::<Seq<char>>::empty()
                =~= Seq::new(count as nat, |k: int| values@[k]@));
        }
        Ok(values)
    }
}


/// Bit `i` of a bitmap kept as 64-bit words, the low bit of each word first;
/// bits past the last word are clear.
pub open spec fn spec_bit(words: Seq<u64>, i: int) -> bool {
    0 <= i && i / 64 < words.len() && words[i / 64] & (1u64 << ((i % 64) as u64)) != 0
}

/// How many bits before position `end` are set.
pub open spec fn spec_ones_before(words: Seq<u64>, end: int) -> nat
    decreases end,
{
    if end <= 0 {
        0
    } else {
        spec_ones_before(words, end - 1) + if spec_bit(words, end - 1) {
            1nat
        } else {
            0nat
        }
    }
}

/// How many bits of the bitmap are set.
pub open spec fn spec_total_ones(words: Seq<u64>) -> nat {
    spec_ones_before(words, 64 * words.len() as int)
}

/// The position of the set bit that has `j` set bits before it.
pub open spec fn spec_select(words: Seq<u64>, j: int) -> int {
    choose|p: int| spec_bit(words, p) && spec_ones_before(words, p) == j
}

/// How many bits before position `end` are clear.
pub open spec fn spec_zeroes_before(words: Seq<u64>, end: int) -> int {
    end - spec_ones_before(words, end)
}

/// How many of the low `c` bits of a word are set.
pub open spec fn spec_low_ones(word: u64, c: int) -> nat
    decreases c,
{
    if c <= 0 {
        0
    } else {
        spec_low_ones(word, c - 1) + if word & (1u64 << ((c - 1) as u64)) != 0 {
            1nat
        } else {
            0nat
        }
    }
}

/// Words padded with zero words to at least `n` words.
pub open spec fn spec_pad_words(words: Seq<u64>, n: int) -> Seq<u64> {
    if words.len() < n {
        words + Seq::new((n - words.len()) as nat, |i: int| 0u64)
    } else {
        words
    }
}

/// The succinct trie of sing-box's domain matcher: a leaf bitmap, a label
/// bitmap (for each node a clear bit per child edge, then a set bit), and the
/// edge labels in breadth-first order.
pub struct DomainTrie {
    pub leaves: Seq<u64>,
    pub bitmap: Seq<u64>,
    pub labels: Seq<u8>,
}

/// The trie that a matcher's three lists describe, once checked: a non-empty
/// label bitmap with one more set bit than clear bits up to its last set
/// bit, and a label for each clear bit there. Leaf words are padded to cover
/// every node.
pub open spec fn spec_trie_from(leaves: Seq<u64>, bitmap: Seq<u64>, labels: Seq<u8>) -> Result<
    DomainTrie,
    SrsError,
> {
    if bitmap.len() == 0 {
        Err(SrsError::EmptyLabelBitmap)
    } else {
        let ones = spec_total_ones(bitmap);
        if ones == 0 {
            Err(SrsError::NoTerminator)
        } else {
            let last = spec_select(bitmap, ones - 1);
            let zeroes = last + 1 - ones;
            if ones != zeroes + 1 {
                Err(SrsError::InvalidLabelBitmap)
            } else if labels.len() != zeroes {
                Err(SrsError::LabelCountMismatch)
            } else {
                Ok(
                    DomainTrie {
                        leaves: spec_pad_words(leaves, ((ones + 63) / 64) as int),
                        bitmap,
                        labels,
                    },
                )
            }
        }
    }
}

/// A domain matcher: a format byte, the leaf words, the label-bitmap words
/// and the labels.
pub open spec fn spec_read_matcher(b: Seq<u8>, p: int) -> Result<(DomainTrie, int), SrsError> {
    match spec_read_u8(b, p) {
        Err(e) => Err(e),
        Ok((_, p1)) => match spec_read_u64s(b, p1) {
            Err(e) => Err(e),
            Ok((leaves, p2)) => match spec_read_u64s(b, p2) {
                Err(e) => Err(e),
                Ok((bitmap, p3)) => match spec_read_bytes(b, p3) {
                    Err(e) => Err(e),
                    Ok((labels, p4)) => match spec_trie_from(leaves, bitmap, labels) {
                        Err(e) => Err(e),
                        Ok(t) => Ok((t, p4)),
                    },
                },
            },
        },
    }
}

proof fn lemma_word_bit(words: Seq<u64>, w: int, c: int)
    requires
        0 <= w < words.len(),
        0 <= c < 64,
    ensures
        spec_bit(words, 64 * w + c) == (words[w] & (1u64 << (c as u64)) != 0),
{
    vstd::arithmetic::div_mod::lemma_fundamental_div_mod_converse(64 * w + c, 64, w, c);
}

proof fn lemma_ones_in_word(words: Seq<u64>, w: int, c: int)
    requires
        0 <= w < words.len(),
        0 <= c <= 64,
    ensures
        spec_ones_before(words, 64 * w + c) == spec_ones_before(words, 64 * w) + spec_low_ones(
            words[w],
            c,
        ),
    decreases c,
{
    if c > 0 {
        lemma_ones_in_word(words, w, c - 1);
        lemma_word_bit(words, w, c - 1);
    }
}

proof fn lemma_no_bits_past_end(words: Seq<u64>, e: int)
    requires
        e >= 64 * words.len(),
    ensures
        spec_ones_before(words, e) == spec_total_ones(words),
    decreases e,
{
    if e > 64 * words.len() {
        lemma_no_bits_past_end(words, e - 1);
        assert(!spec_bit(words, e - 1)) by {
            vstd::arithmetic::div_mod::lemma_div_is_ordered(64 * words.len() as int, e - 1, 64);
            vstd::arithmetic::div_mod::lemma_div_multiples_vanish(words.len() as int, 64);
        }
    }
}

proof fn lemma_ones_monotone(words: Seq<u64>, a: int, b: int)
    requires
        a <= b,
    ensures
        spec_ones_before(words, a) <= spec_ones_before(words, b),
        a >= 0 ==> spec_ones_before(words, b) <= spec_ones_before(words, a) + (b - a),
    decreases b - a,
{
    if a < b {
        lemma_ones_monotone(words, a, b - 1);
    }
}

proof fn lemma_ones_bound(words: Seq<u64>, e: int)
    requires
        e >= 0,
    ensures
        spec_ones_before(words, e) <= e,
{
    lemma_ones_monotone(words, 0, e);
}

/// Positions of set bits are told apart by how many set bits come before them.
proof fn lemma_select_unique(words: Seq<u64>, p1: int, p2: int)
    requires
        spec_bit(words, p1),
        spec_bit(words, p2),
        spec_ones_before(words, p1) == spec_ones_before(words, p2),
    ensures
        p1 == p2,
{
    if p1 < p2 {
        lemma_ones_monotone(words, p1 + 1, p2);
    } else if p2 < p1 {
        lemma_ones_monotone(words, p2 + 1, p1);
    }
}

proof fn lemma_select_is(words: Seq<u64>, p: int, j: int)
    requires
        spec_bit(words, p),
        spec_ones_before(words, p) == j,
    ensures
        spec_select(words, j) == p,
{
    let q = spec_select(words, j);
    lemma_select_unique(words, p, q);
}

/// The compact domain trie of sing-box's `domain.Matcher`, with rank and
/// select tables for its label bitmap.
pub struct SrsDomainMatcher {
    leaves: Vec<u64>,
    label_bitmap: Vec<u64>,
    labels: Vec<u8>,
    one_positions: Vec<usize>,
    one_prefix: Vec<usize>,
}

impl SrsDomainMatcher {
    /// The trie this matcher holds.
    pub closed spec fn model(&self) -> DomainTrie {
        DomainTrie { leaves: self.leaves@, bitmap: self.label_bitmap@, labels: self.labels@ }
    }

    /// The tables agree with the label bitmap, and the lists are small
    /// enough that positions fit `usize`.
    pub closed spec fn wf(&self) -> bool {
        &&& self.label_bitmap@.len() <= MAX_UNCOMPRESSED_RULE_SET_BYTES / 8
        &&& self.labels@.len() <= MAX_UNCOMPRESSED_RULE_SET_BYTES
        &&& self.one_prefix@.len() == self.label_bitmap@.len() + 1
        &&& forall|w: int|
            0 <= w < self.one_prefix@.len() ==> #[trigger] self.one_prefix@[w] == spec_ones_before(
                self.label_bitmap@,
                64 * w,
            )
        &&& self.one_positions@.len() == spec_total_ones(self.label_bitmap@)
        &&& forall|j: int|
            0 <= j < self.one_positions@.len() ==> spec_bit(
                self.label_bitmap@,
                #[trigger] self.one_positions@[j] as int,
            ) && spec_ones_before(self.label_bitmap@, self.one_positions@[j] as int) == j
                && self.one_positions@[j] < 64 * self.label_bitmap@.len()
    }

    /// Bit `index` of the label bitmap.
    pub fn label_bit(&self, index: usize) -> (r: bool)
        ensures
            r == spec_bit(self.model().bitmap, index as int),
    {
        let w = index / 64;
        if w < self.label_bitmap.len() {
            self.label_bitmap[w] & (1u64 << ((index % 64) as u64)) != 0
        } else {
            false
        }
    }

    /// Bit `index` of the leaf bitmap.
    pub fn leaf_bit(&self, index: usize) -> (r: bool)
        ensures
            r == spec_bit(self.model().leaves, index as int),
    {
        let w = index / 64;
        if w < self.leaves.len() {
            self.leaves[w] & (1u64 << ((index % 64) as u64)) != 0
        } else {
            false
        }
    }

    /// How many bits of the label bitmap before `end` are clear.
    pub fn count_zeroes(&self, end: usize) -> (r: usize)
        requires
            self.wf(),
        ensures
            r == spec_zeroes_before(self.model().bitmap, end as int),
    {
        let ghost words = self.label_bitmap@;
        let word_index = end / 64;
        let bit_count = end % 64;
        let ones_before = if word_index < self.one_prefix.len() {
            self.one_prefix[word_index]
        } else {
            self.one_prefix[self.one_prefix.len() - 1]
        };
        let mut ones_in_word: usize = 0;
        if word_index < self.label_bitmap.len() {
            let word = self.label_bitmap[word_index];
            let mut c: usize = 0;
            while c < bit_count
                invariant
                    c <= bit_count < 64,
                    ones_in_word == spec_low_ones(word, c as int),
                    ones_in_word <= c,
                decreases bit_count - c,
            {
                if word & (1u64 << (c as u64)) != 0 {
                    ones_in_word += 1;
                }
                c += 1;
            }
            proof {
                lemma_ones_in_word(words, word_index as int, bit_count as int);
            }
        } else {
            proof {
                lemma_no_bits_past_end(words, end as int);
                if word_index as int == words.len() {
                    lemma_no_bits_past_end(words, 64 * word_index as int);
                }
            }
        }
        proof {
            lemma_ones_bound(words, end as int);
            if word_index >= self.one_prefix.len() {
                lemma_no_bits_past_end(words, end as int);
            }
        }
        end - (ones_before + ones_in_word)
    }

    /// Reads a domain matcher, building its rank and select tables.
    pub fn parse(reader: &mut SrsReader) -> (r: Result<SrsDomainMatcher, SrsError>)
        requires
            old(reader).wf(),
        ensures
            final(reader).wf(),
            final(reader).data() == old(reader).data(),
            r matches Ok(m) ==> m.wf() && spec_read_matcher(old(reader).data(), old(reader).pos())
                == Ok::<(DomainTrie, int), SrsError>((m.model(), final(reader).pos())),
            r matches Err(e) ==> spec_read_matcher(old(reader).data(), old(reader).pos()) == Err::<
                (DomainTrie, int),
                SrsError,
            >(e),
    {
        let _format_version = reader.read_u8()?;
        let leaves = reader.read_u64s()?;
        let label_bitmap = reader.read_u64s()?;
        let labels = reader.read_bytes()?;
        let ghost words = label_bitmap@;
        if label_bitmap.len() == 0 {
            return Err(SrsError::EmptyLabelBitmap);
        }
        let len = label_bitmap.len();
        let mut one_positions: Vec<usize> = Vec::new();
        let mut one_prefix: Vec<usize> = Vec::new();
        let mut ones: usize = 0;
        let mut w: usize = 0;
        while w < len
            invariant
                w <= len,
                len == words.len(),
                words == label_bitmap@,
                len <= MAX_UNCOMPRESSED_RULE_SET_BYTES / 8,
                one_prefix@.len() == w,
                forall|v: int| 0 <= v < w ==> #[trigger] one_prefix@[v] == spec_ones_before(words, 64 * v),
                ones == spec_ones_before(words, 64 * w),
                one_positions@.len() == ones,
                forall|j: int|
                    0 <= j < one_positions@.len() ==> spec_bit(words, #[trigger] one_positions@[j] as int)
                        && spec_ones_before(words, one_positions@[j] as int) == j
                        && one_positions@[j] < 64 * w,
            decreases len - w,
        {
            proof {
                lemma_ones_bound(words, 64 * w);
            }
            one_prefix.push(ones);
            let word = label_bitmap[w];
            let base = w * 64;
            let mut c: usize = 0;
            while c < 64
                invariant
                    c <= 64,
                    w < len,
                    len == words.len(),
                    words[w as int] == word,
                    base == 64 * w,
                    len <= MAX_UNCOMPRESSED_RULE_SET_BYTES / 8,
                    ones == spec_ones_before(words, base + c),
                    one_positions@.len() == ones,
                    forall|j: int|
                        0 <= j < one_positions@.len() ==> spec_bit(words, #[trigger] one_positions@[j] as int)
                            && spec_ones_before(words, one_positions@[j] as int) == j
                            && one_positions@[j] < base + c,
                decreases 64 - c,
            {
                proof {
                    lemma_word_bit(words, w as int, c as int);
                    lemma_ones_bound(words, base + c);
                }
                if word & (1u64 << (c as u64)) != 0 {
                    one_positions.push(base + c);
                    ones += 1;
                }
                c += 1;
            }
            w += 1;
        }
        one_prefix.push(ones);
        assert(forall|v: int| 0 <= v < one_prefix@.len() ==> #[trigger] one_prefix@[v] == spec_ones_before(words, 64 * v));
        if ones == 0 {
            return Err(SrsError::NoTerminator);
        }
        let last_one = one_positions[ones - 1];
        proof {
            lemma_select_is(words, last_one as int, ones - 1);
            lemma_ones_bound(words, last_one as int);
        }
        let zeroes = last_one + 1 - ones;
        if ones != zeroes + 1 {
            return Err(SrsError::InvalidLabelBitmap);
        }
        if labels.len() != zeroes {
            return Err(SrsError::LabelCountMismatch);
        }
        let required_leaf_words = (ones + 63) / 64;
        let mut leaves = leaves;
        let ghost raw_leaves = leaves@;
        while leaves.len() < required_leaf_words
            invariant
                raw_leaves.len() <= leaves@.len() <= (if raw_leaves.len() < required_leaf_words {
                    required_leaf_words as int
                } else {
                    raw_leaves.len() as int
                }),
                leaves@.subrange(0, raw_leaves.len() as int) == raw_leaves,
                forall|i: int| raw_leaves.len() <= i < leaves@.len() ==> leaves@[i] == 0,
            decreases required_leaf_words - leaves@.len(),
        {
            leaves.push(0);
        }
        assert(leaves@ =~= spec_pad_words(raw_leaves, ((ones + 63) / 64) as int));
        Ok(SrsDomainMatcher { leaves, label_bitmap, labels, one_positions, one_prefix })
    }
}


/// One step of the trie walk: the key is refused, accepted, or goes on at
/// the given label-bitmap position.
pub enum WalkStep {
    Reject,
    Accept,
    Next(int),
}

/// The label of the edge at bitmap position `bi` of node `node`.
pub open spec fn spec_label_at(t: DomainTrie, node: int, bi: int) -> Option<u8> {
    let index = if bi >= node {
        bi - node
    } else {
        0
    };
    if 0 <= index < t.labels.len() {
        Some(t.labels[index])
    } else {
        None
    }
}

/// Looks among the edges of `node`, from bitmap position `bi` on, for the
/// key byte `current`: a prefix label accepts at once, a root label accepts
/// at a dot where its child is a leaf, and the end of the edges refuses.
pub open spec fn spec_seek(t: DomainTrie, node: int, bi: int, current: u8) -> WalkStep
    decreases t.labels.len() + node - bi,
{
    if spec_bit(t.bitmap, bi) {
        WalkStep::Reject
    } else {
        match spec_label_at(t, node, bi) {
            None => WalkStep::Reject,
            Some(label) => if label == DOMAIN_PREFIX_LABEL {
                WalkStep::Accept
            } else if label == DOMAIN_ROOT_LABEL && current == 46u8 && spec_bit(
                t.leaves,
                spec_zeroes_before(t.bitmap, bi + 1),
            ) {
                WalkStep::Accept
            } else if label == current {
                WalkStep::Next(bi)
            } else {
                spec_seek(t, node, bi + 1, current)
            },
        }
    }
}

/// After the whole key: some edge of `node` from `bi` on is a prefix or a
/// root label.
pub open spec fn spec_tail(t: DomainTrie, node: int, bi: int) -> bool
    decreases t.labels.len() + node - bi,
{
    if spec_bit(t.bitmap, bi) {
        false
    } else {
        match spec_label_at(t, node, bi) {
            None => false,
            Some(label) => if label == DOMAIN_PREFIX_LABEL || label == DOMAIN_ROOT_LABEL {
                true
            } else {
                spec_tail(t, node, bi + 1)
            },
        }
    }
}

/// Walks the trie along `key` from byte `k`, at `node` whose edges start at
/// bitmap position `bi`.
pub open spec fn spec_walk(t: DomainTrie, key: Seq<u8>, k: int, node: int, bi: int) -> bool
    decreases key.len() - k,
{
    if k >= key.len() {
        spec_bit(t.leaves, node) || spec_tail(t, node, bi)
    } else {
        match spec_seek(t, node, bi, key[k]) {
            WalkStep::Reject => false,
            WalkStep::Accept => true,
            WalkStep::Next(edge) => {
                let child = spec_zeroes_before(t.bitmap, edge + 1);
                if 1 <= child && child - 1 < spec_total_ones(t.bitmap) {
                    spec_walk(t, key, k + 1, child, spec_select(t.bitmap, child - 1) + 1)
                } else {
                    false
                }
            },
        }
    }
}

/// The trie holds the domain: its key is the domain's characters reversed,
/// as UTF-8 bytes.
pub open spec fn spec_trie_matches(t: DomainTrie, domain: Seq<char>) -> bool {
    spec_walk(t, vstd::utf8::encode_utf8(domain.reverse()), 0, 0, 0)
}

/// A string of the characters of `s` in reverse order.
pub fn reversed(s: &str) -> (r: String)
    ensures
        r@ == s@.reverse(),
{
    let chars = chars_of(s);
    let mut out: Vec<char> = Vec::new();
    let mut i = chars.len();
    while i > 0
        invariant
            i <= chars@.len(),
            chars@ == s@,
            out@ == s@.subrange(i as int, s@.len() as int).reverse(),
        decreases i,
    {
        i -= 1;
        out.push(chars[i]);
        assert(out@ =~= s@.subrange(i as int, s@.len() as int).reverse());
    }
    assert(s@.subrange(0, s@.len() as int) =~= s@);
    string_from_chars(&out)
}

/// Bitmap position `e` is an edge of `node` at or after `bi`: the node's
/// edges do not end (no 1 bit) from `bi` through `e`, and `e` has a label.
pub open spec fn spec_edge_from(t: DomainTrie, node: int, bi: int, e: int) -> bool {
    &&& bi <= e
    &&& forall|q: int| bi <= q <= e ==> !spec_bit(t.bitmap, q)
    &&& spec_label_at(t, node, e) is Some
}

/// Some edge of `node`, from `bi` on, carries `label`.
pub open spec fn spec_has_edge(t: DomainTrie, node: int, bi: int, label: u8) -> bool {
    exists|e: int| #[trigger] spec_edge_from(t, node, bi, e) && spec_label_at(t, node, e) == Some(label)
}

/// Some edge of `node`, from `bi` on, ends a suffix key: a root label whose
/// child is a leaf.
pub open spec fn spec_has_suffix_end(t: DomainTrie, node: int, bi: int) -> bool {
    exists|e: int|
        #[trigger] spec_edge_from(t, node, bi, e) && spec_label_at(t, node, e) == Some(DOMAIN_ROOT_LABEL)
            && spec_bit(t.leaves, spec_zeroes_before(t.bitmap, e + 1))
}

/// The first edge of `node`, from `bi` on, labelled `byte`.
pub open spec fn spec_first_edge(t: DomainTrie, node: int, bi: int, byte: u8) -> Option<int>
    decreases t.labels.len() + node - bi,
{
    if spec_bit(t.bitmap, bi) {
        None
    } else {
        match spec_label_at(t, node, bi) {
            None => None,
            Some(label) => if label == byte {
                Some(bi)
            } else {
                spec_first_edge(t, node, bi + 1, byte)
            },
        }
    }
}

/// The node reached by following the edges labelled `key[from..to]` one by
/// one, from `node` whose edges start at `bi`; `None` where an edge is missing.
pub open spec fn spec_descend(
    t: DomainTrie,
    key: Seq<u8>,
    from: int,
    to: int,
    node: int,
    bi: int,
) -> Option<(int, int)>
    decreases to - from,
{
    if from >= to {
        Some((node, bi))
    } else {
        match spec_first_edge(t, node, bi, key[from]) {
            None => None,
            Some(e) => {
                let child = spec_zeroes_before(t.bitmap, e + 1);
                if 1 <= child && child - 1 < spec_total_ones(t.bitmap) {
                    spec_descend(t, key, from + 1, to, child, spec_select(t.bitmap, child - 1) + 1)
                } else {
                    None
                }
            },
        }
    }
}

/// After the key bytes before `j`, the trie holds a rule that covers the
/// whole key: a prefix key; a suffix key that the key continues at a label
/// boundary (a dot); or, at the end of the key, an exact key or a suffix key.
pub open spec fn spec_rule_ends_at(t: DomainTrie, key: Seq<u8>, j: int, node: int, bi: int) -> bool {
    ||| spec_has_edge(t, node, bi, DOMAIN_PREFIX_LABEL)
    ||| j < key.len() && key[j] == 46u8 && spec_has_suffix_end(t, node, bi)
    ||| j == key.len() && (spec_bit(t.leaves, node) || spec_has_edge(t, node, bi, DOMAIN_ROOT_LABEL))
}

/// Following `key[from..j]` from (`node`, `bi`) reaches a rule that covers
/// the key.
pub open spec fn spec_rule_reached(
    t: DomainTrie,
    key: Seq<u8>,
    from: int,
    j: int,
    node: int,
    bi: int,
) -> bool {
    match spec_descend(t, key, from, j, node, bi) {
        Some((n, b)) => spec_rule_ends_at(t, key, j, n, b),
        None => false,
    }
}

proof fn lemma_edge_from_earlier(t: DomainTrie, node: int, bi: int, e: int)
    requires
        spec_edge_from(t, node, bi + 1, e),
        !spec_bit(t.bitmap, bi),
    ensures
        spec_edge_from(t, node, bi, e),
{
    assert forall|q: int| bi <= q <= e implies !spec_bit(t.bitmap, q) by {
        if q > bi {
            assert(bi + 1 <= q <= e);
        }
    }
}

proof fn lemma_edge_here(t: DomainTrie, node: int, bi: int)
    requires
        !spec_bit(t.bitmap, bi),
        spec_label_at(t, node, bi) is Some,
    ensures
        spec_edge_from(t, node, bi, bi),
{
    assert forall|q: int| bi <= q <= bi implies !spec_bit(t.bitmap, q) by {
        assert(q == bi);
    }
}

/// An accepted byte comes from a prefix key, or from a suffix key at a dot.
proof fn lemma_seek_accept(t: DomainTrie, node: int, bi: int, current: u8)
    requires
        spec_seek(t, node, bi, current) == WalkStep::Accept,
    ensures
        spec_has_edge(t, node, bi, DOMAIN_PREFIX_LABEL) || (current == 46u8 && spec_has_suffix_end(
            t,
            node,
            bi,
        )),
    decreases t.labels.len() + node - bi,
{
    let label = spec_label_at(t, node, bi)->0;
    if label == DOMAIN_PREFIX_LABEL {
        lemma_edge_here(t, node, bi);
    } else if label == DOMAIN_ROOT_LABEL && current == 46u8 && spec_bit(
        t.leaves,
        spec_zeroes_before(t.bitmap, bi + 1),
    ) {
        lemma_edge_here(t, node, bi);
    } else {
        lemma_seek_accept(t, node, bi + 1, current);
        if spec_has_edge(t, node, bi + 1, DOMAIN_PREFIX_LABEL) {
            let e = choose|e: int|
                #[trigger] spec_edge_from(t, node, bi + 1, e) && spec_label_at(t, node, e) == Some(
                    DOMAIN_PREFIX_LABEL,
                );
            lemma_edge_from_earlier(t, node, bi, e);
        } else {
            let e = choose|e: int|
                #[trigger] spec_edge_from(t, node, bi + 1, e) && spec_label_at(t, node, e) == Some(
                    DOMAIN_ROOT_LABEL,
                ) && spec_bit(t.leaves, spec_zeroes_before(t.bitmap, e + 1));
            lemma_edge_from_earlier(t, node, bi, e);
        }
    }
}

/// A byte that goes on follows the first edge labelled with it.
proof fn lemma_seek_next(t: DomainTrie, node: int, bi: int, current: u8, e: int)
    requires
        spec_seek(t, node, bi, current) == WalkStep::Next(e),
    ensures
        spec_first_edge(t, node, bi, current) == Some(e),
    decreases t.labels.len() + node - bi,
{
    let label = spec_label_at(t, node, bi)->0;
    if label != current {
        lemma_seek_next(t, node, bi + 1, current, e);
    }
}

/// The end of a key is accepted by a prefix or a root edge.
proof fn lemma_tail_edge(t: DomainTrie, node: int, bi: int)
    requires
        spec_tail(t, node, bi),
    ensures
        spec_has_edge(t, node, bi, DOMAIN_PREFIX_LABEL) || spec_has_edge(t, node, bi, DOMAIN_ROOT_LABEL),
    decreases t.labels.len() + node - bi,
{
    let label = spec_label_at(t, node, bi)->0;
    if label == DOMAIN_PREFIX_LABEL || label == DOMAIN_ROOT_LABEL {
        lemma_edge_here(t, node, bi);
    } else {
        lemma_tail_edge(t, node, bi + 1);
        if spec_has_edge(t, node, bi + 1, DOMAIN_PREFIX_LABEL) {
            let e = choose|e: int|
                #[trigger] spec_edge_from(t, node, bi + 1, e) && spec_label_at(t, node, e) == Some(
                    DOMAIN_PREFIX_LABEL,
                );
            lemma_edge_from_earlier(t, node, bi, e);
        } else {
            let e = choose|e: int|
                #[trigger] spec_edge_from(t, node, bi + 1, e) && spec_label_at(t, node, e) == Some(
                    DOMAIN_ROOT_LABEL,
                );
            lemma_edge_from_earlier(t, node, bi, e);
        }
    }
}

proof fn lemma_walk_reaches_rule(t: DomainTrie, key: Seq<u8>, k: int, node: int, bi: int)
    requires
        0 <= k <= key.len(),
        spec_walk(t, key, k, node, bi),
    ensures
        exists|j: int| k <= j <= key.len() && #[trigger] spec_rule_reached(t, key, k, j, node, bi),
    decreases key.len() - k,
{
    if k == key.len() {
        if !spec_bit(t.leaves, node) {
            lemma_tail_edge(t, node, bi);
        }
        assert(spec_rule_reached(t, key, k, k, node, bi));
    } else {
        match spec_seek(t, node, bi, key[k]) {
            WalkStep::Accept => {
                lemma_seek_accept(t, node, bi, key[k]);
                assert(spec_rule_reached(t, key, k, k, node, bi));
            },
            WalkStep::Next(e) => {
                lemma_seek_next(t, node, bi, key[k], e);
                let child = spec_zeroes_before(t.bitmap, e + 1);
                let cb = spec_select(t.bitmap, child - 1) + 1;
                lemma_walk_reaches_rule(t, key, k + 1, child, cb);
                let j = choose|j: int|
                    k + 1 <= j <= key.len() && #[trigger] spec_rule_reached(t, key, k + 1, j, child, cb);
                assert(spec_descend(t, key, k, j, node, bi) == spec_descend(t, key, k + 1, j, child, cb));
                assert(spec_rule_reached(t, key, k, j, node, bi));
            },
            WalkStep::Reject => {},
        }
    }
}

/// What a match means: the domain's key (its characters reversed, as
/// UTF-8) follows trie edges for some first `j` bytes to a rule that covers
/// it. A suffix rule covers the key only at its end or where the key goes on
/// with a dot, so a suffix rule for `s` matches `s` and its subdomains and no
/// domain that merely ends with the characters of `s`; an exact rule covers
/// only the whole key.
pub proof fn law_trie_match_is_a_covering_rule(t: DomainTrie, domain: Seq<char>)
    ensures
        spec_trie_matches(t, domain) ==> exists|j: int|
            0 <= j <= vstd::utf8::encode_utf8(domain.reverse()).len() && #[trigger] spec_rule_reached(
                t,
                vstd::utf8::encode_utf8(domain.reverse()),
                0,
                j,
                0,
                0,
            ),
{
    if spec_trie_matches(t, domain) {
        lemma_walk_reaches_rule(t, vstd::utf8::encode_utf8(domain.reverse()), 0, 0, 0);
    }
}

impl SrsDomainMatcher {
    /// The trie holds the domain (sing-box's `domain.Matcher::Match`).
    pub fn matches(&self, domain: &str) -> (r: bool)
        requires
            self.wf(),
        ensures
            r == spec_trie_matches(self.model(), domain@),
            r ==> exists|j: int|
                0 <= j <= vstd::utf8::encode_utf8(domain@.reverse()).len()
                    && #[trigger] spec_rule_reached(
                    self.model(),
                    vstd::utf8::encode_utf8(domain@.reverse()),
                    0,
                    j,
                    0,
                    0,
                ),
    {
        let ghost t = self.model();
        let key_string = reversed(domain);
        let key = key_string.as_str().as_bytes();
        let ghost kv = key@;
        assert(kv == vstd::utf8::encode_utf8(domain@.reverse()));
        let bound = self.label_bitmap.len() * 64;
        let mut node_id: usize = 0;
        let mut bitmap_index: usize = 0;
        let mut k: usize = 0;
        while k < key.len()
            invariant
                self.wf(),
                t == self.model(),
                kv == key@,
                kv == vstd::utf8::encode_utf8(domain@.reverse()),
                bound == 64 * t.bitmap.len(),
                k <= key@.len(),
                node_id <= bound,
                bitmap_index <= bound,
                spec_walk(t, kv, 0, 0, 0) == spec_walk(t, kv, k as int, node_id as int, bitmap_index as int),
            decreases key@.len() - k,
        {
            let current = key[k];
            let ghost start = bitmap_index;
            loop
                invariant
                    self.wf(),
                    t == self.model(),
                    node_id <= bound,
                    bound == 64 * t.bitmap.len(),
                    kv == key@,
                    kv == vstd::utf8::encode_utf8(domain@.reverse()),
                    k < key@.len(),
                    current == kv[k as int],
                    bitmap_index <= bound + t.labels.len(),
                    spec_walk(t, kv, 0, 0, 0) == spec_walk(t, kv, k as int, node_id as int, start as int),
                    spec_seek(t, node_id as int, start as int, current) == spec_seek(
                        t,
                        node_id as int,
                        bitmap_index as int,
                        current,
                    ),
                    spec_walk(t, kv, k as int, node_id as int, start as int) == match spec_seek(
                        t,
                        node_id as int,
                        start as int,
                        current,
                    ) {
                        WalkStep::Reject => false,
                        WalkStep::Accept => true,
                        WalkStep::Next(edge) => {
                            let child = spec_zeroes_before(t.bitmap, edge + 1);
                            if 1 <= child && child - 1 < spec_total_ones(t.bitmap) {
                                spec_walk(
                                    t,
                                    kv,
                                    k + 1,
                                    child,
                                    spec_select(t.bitmap, child - 1) + 1,
                                )
                            } else {
                                false
                            }
                        },
                    },
                ensures
                    spec_seek(t, node_id as int, start as int, current) == WalkStep::Next(
                        bitmap_index as int,
                    ),
                    bitmap_index < node_id + t.labels.len(),
                decreases t.labels.len() + node_id - bitmap_index,
            {
                if self.label_bit(bitmap_index) {
                    return false;
                }
                let index = if bitmap_index >= node_id {
                    bitmap_index - node_id
                } else {
                    0
                };
                if index >= self.labels.len() {
                    return false;
                }
                let next_label = self.labels[index];
                if next_label == DOMAIN_PREFIX_LABEL {
                    proof {
                        law_trie_match_is_a_covering_rule(self.model(), domain@);
                    }
                    return true;
                }
                if next_label == DOMAIN_ROOT_LABEL {
                    let next_node_id = self.count_zeroes(bitmap_index + 1);
                    if current == 46u8 && self.leaf_bit(next_node_id) {
                        proof {
                            law_trie_match_is_a_covering_rule(self.model(), domain@);
                        }
                        return true;
                    }
                }
                if next_label == current {
                    break;
                }
                bitmap_index += 1;
            }
            node_id = self.count_zeroes(bitmap_index + 1);
            if node_id == 0 || node_id - 1 >= self.one_positions.len() {
                return false;
            }
            let next = self.one_positions[node_id - 1];
            proof {
                lemma_select_is(t.bitmap, next as int, node_id - 1);
                lemma_ones_bound(t.bitmap, bound as int);
            }
            bitmap_index = next + 1;
            k += 1;
        }
        if self.leaf_bit(node_id) {
            proof {
                law_trie_match_is_a_covering_rule(self.model(), domain@);
            }
            return true;
        }
        loop
            invariant
                self.wf(),
                t == self.model(),
                node_id <= bound,
                bound == 64 * t.bitmap.len(),
                kv == vstd::utf8::encode_utf8(domain@.reverse()),
                bitmap_index <= bound + t.labels.len(),
                spec_walk(t, kv, 0, 0, 0) == spec_tail(t, node_id as int, bitmap_index as int),
            decreases t.labels.len() + node_id - bitmap_index,
        {
            if self.label_bit(bitmap_index) {
                return false;
            }
            let index = if bitmap_index >= node_id {
                bitmap_index - node_id
            } else {
                0
            };
            if index >= self.labels.len() {
                return false;
            }
            let next_label = self.labels[index];
            if next_label == DOMAIN_PREFIX_LABEL || next_label == DOMAIN_ROOT_LABEL {
                proof {
                    law_trie_match_is_a_covering_rule(self.model(), domain@);
                }
                return true;
            }
            bitmap_index += 1;
        }
    }
}


#[verifier::external_type_specification]
#[verifier::external_body]
pub struct ExRegex(regex::Regex);

/// Whether `regex::Regex::new` compiles a pattern.
pub uninterp spec fn spec_regex_valid(pattern: Seq<char>) -> bool;

/// Whether the compiled pattern matches somewhere in the text
/// (`regex::Regex::is_match`).
pub uninterp spec fn spec_regex_is_match(pattern: Seq<char>, text: Seq<char>) -> bool;

/// Compiles a pattern with `regex::Regex::new`; the contract names when it
/// succeeds and claims nothing else of the regex syntax.
#[verifier::external_body]
fn compile_regex(pattern: &str) -> (r: Option<regex::Regex>)
    ensures
        r is Some <==> spec_regex_valid(pattern@),
{
    regex::Regex::new(pattern).ok()
}

/// A domain regular expression with the pattern it was compiled from.
pub struct DomainRegex {
    pattern: String,
    regex: regex::Regex,
}

impl DomainRegex {
    /// The pattern the regex was compiled from.
    pub closed spec fn pattern(&self) -> Seq<char> {
        self.pattern@
    }

    /// Compiles a pattern; `None` where regex refuses it.
    pub fn new(pattern: String) -> (r: Option<DomainRegex>)
        ensures
            r is Some <==> spec_regex_valid(pattern@),
            r matches Some(x) ==> x.pattern() == pattern@,
    {
        match compile_regex(pattern.as_str()) {
            Some(regex) => Some(DomainRegex { pattern, regex }),
            None => None,
        }
    }
}

/// `regex::Regex::is_match` of the regex that `DomainRegex::new` compiled;
/// the contract names the answer by the pattern, which the struct's private
/// fields keep paired with its regex.
#[verifier::external_body]
fn regex_is_match(re: &DomainRegex, text: &str) -> (r: bool)
    ensures
        r == spec_regex_is_match(re.pattern(), text@),
{
    re.regex.is_match(text)
}

/// A rule of a domain rule set, as the file describes it.
pub enum RuleModel {
    Any(Seq<RuleModel>),
    All(Seq<RuleModel>),
    Not(Box<RuleModel>),
    Domain(DomainTrie),
    Keywords(Seq<Seq<char>>),
    Regexes(Seq<Seq<char>>),
}

/// A rule matches a (normalized) domain.
pub open spec fn spec_rule_matches(m: RuleModel, domain: Seq<char>) -> bool
    decreases m,
{
    match m {
        RuleModel::Any(rules) => exists|i: int|
            0 <= i < rules.len() && spec_rule_matches(rules[i], domain),
        RuleModel::All(rules) => forall|i: int|
            0 <= i < rules.len() ==> spec_rule_matches(rules[i], domain),
        RuleModel::Not(rule) => !spec_rule_matches(*rule, domain),
        RuleModel::Domain(t) => spec_trie_matches(t, domain),
        RuleModel::Keywords(keywords) => exists|i: int|
            0 <= i < keywords.len() && spec_contains(domain, keywords[i]),
        RuleModel::Regexes(patterns) => exists|i: int|
            0 <= i < patterns.len() && spec_regex_is_match(patterns[i], domain),
    }
}

/// The lookup form of a domain: trailing dots dropped, ASCII lower-case.
pub open spec fn spec_rule_domain(domain: Seq<char>) -> Seq<char> {
    spec_lower(spec_trim_end_char(domain, '.'))
}

/// Some rule of the set matches the domain, which must not be empty.
pub open spec fn spec_rule_set_matches(rules: Seq<RuleModel>, domain: Seq<char>) -> bool {
    let d = spec_rule_domain(domain);
    d.len() > 0 && exists|i: int| 0 <= i < rules.len() && spec_rule_matches(rules[i], d)
}

/// A domain rule.
pub enum RuleExpression {
    Any(Vec<RuleExpression>),
    All(Vec<RuleExpression>),
    Not(Box<RuleExpression>),
    DomainMatcher(SrsDomainMatcher),
    DomainKeyword(Vec<String>),
    DomainRegex(Vec<DomainRegex>),
}

/// The models of a list of rules.
pub open spec fn spec_models(rules: Seq<RuleExpression>) -> Seq<RuleModel> {
    Seq::new(rules.len(), |i: int| rules[i].model())
}

impl RuleExpression {
    /// What the rule says, as the file describes it.
    pub open spec fn model(self) -> RuleModel
        decreases self,
    {
        match self {
            RuleExpression::Any(rules) => RuleModel::Any(
                Seq::new(
                    rules@.len(),
                    |i: int|
                        if 0 <= i < rules@.len() {
                            rules@[i].model()
                        } else {
                            RuleModel::Keywords(Seq::empty())
                        },
                ),
            ),
            RuleExpression::All(rules) => RuleModel::All(
                Seq::new(
                    rules@.len(),
                    |i: int|
                        if 0 <= i < rules@.len() {
                            rules@[i].model()
                        } else {
                            RuleModel::Keywords(Seq::empty())
                        },
                ),
            ),
            RuleExpression::Not(rule) => RuleModel::Not(Box::new(rule.model())),
            RuleExpression::DomainMatcher(m) => RuleModel::Domain(m.model()),
            RuleExpression::DomainKeyword(keywords) => RuleModel::Keywords(
                Seq::new(keywords@.len(), |i: int| keywords@[i]@),
            ),
            RuleExpression::DomainRegex(expressions) => RuleModel::Regexes(
                Seq::new(expressions@.len(), |i: int| expressions@[i].pattern()),
            ),
        }
    }

    /// Every domain matcher inside is well formed.
    pub open spec fn wf(self) -> bool
        decreases self,
    {
        match self {
            RuleExpression::Any(rules) => forall|i: int|
                0 <= i < rules@.len() ==> (#[trigger] rules@[i]).wf(),
            RuleExpression::All(rules) => forall|i: int|
                0 <= i < rules@.len() ==> (#[trigger] rules@[i]).wf(),
            RuleExpression::Not(rule) => rule.wf(),
            RuleExpression::DomainMatcher(m) => m.wf(),
            _ => true,
        }
    }

    /// The rule matches a domain already in lookup form.
    #[verifier::loop_isolation(false)]
    pub fn matches(&self, domain: &str) -> (r: bool)
        requires
            self.wf(),
        ensures
            r == spec_rule_matches(self.model(), domain@),
        decreases self,
    {
        match self {
            RuleExpression::Any(rules) => {
                let mut i: usize = 0;
                while i < rules.len()
                    invariant
                        i <= rules@.len(),
                        forall|k: int|
                            0 <= k < i ==> !spec_rule_matches(#[trigger] rules@[k].model(), domain@),
                    decreases rules@.len() - i,
                {
                    proof {
                        assert(decreases_to!(rules => rules@[i as int]));
                    }
                    if rules[i].matches(domain) {
                        assert(self.model()->Any_0[i as int] == rules@[i as int].model());
                        return true;
                    }
                    i += 1;
                }
                proof {
                    assert forall|k: int| 0 <= k < self.model()->Any_0.len() implies !spec_rule_matches(
                        self.model()->Any_0[k],
                        domain@,
                    ) by {
                        assert(self.model()->Any_0[k] == rules@[k].model());
                    }
                }
                false
            },
            RuleExpression::All(rules) => {
                let mut i: usize = 0;
                while i < rules.len()
                    invariant
                        i <= rules@.len(),
                        forall|k: int|
                            0 <= k < i ==> spec_rule_matches(#[trigger] rules@[k].model(), domain@),
                    decreases rules@.len() - i,
                {
                    proof {
                        assert(decreases_to!(rules => rules@[i as int]));
                    }
                    if !rules[i].matches(domain) {
                        assert(self.model()->All_0[i as int] == rules@[i as int].model());
                        return false;
                    }
                    i += 1;
                }
                proof {
                    assert forall|k: int| 0 <= k < self.model()->All_0.len() implies spec_rule_matches(
                        self.model()->All_0[k],
                        domain@,
                    ) by {
                        assert(self.model()->All_0[k] == rules@[k].model());
                    }
                }
                true
            },
            RuleExpression::Not(rule) => !rule.matches(domain),
            RuleExpression::DomainMatcher(matcher) => matcher.matches(domain),
            RuleExpression::DomainKeyword(keywords) => {
                let d = chars_of(domain);
                let mut i: usize = 0;
                while i < keywords.len()
                    invariant
                        i <= keywords@.len(),
                        d@ == domain@,
                        forall|k: int| 0 <= k < i ==> !spec_contains(domain@, #[trigger] keywords@[k]@),
                    decreases keywords@.len() - i,
                {
                    let keyword = chars_of(keywords[i].as_str());
                    if contains(d.as_slice(), keyword.as_slice()) {
                        assert(self.model()->Keywords_0[i as int] == keywords@[i as int]@);
                        return true;
                    }
                    i += 1;
                }
                proof {
                    assert forall|k: int| 0 <= k < self.model()->Keywords_0.len() implies !spec_contains(
                        domain@,
                        self.model()->Keywords_0[k],
                    ) by {
                        assert(self.model()->Keywords_0[k] == keywords@[k]@);
                    }
                }
                false
            },
            RuleExpression::DomainRegex(expressions) => {
                let mut i: usize = 0;
                while i < expressions.len()
                    invariant
                        i <= expressions@.len(),
                        forall|k: int|
                            0 <= k < i ==> !spec_regex_is_match(
                                #[trigger] expressions@[k].pattern(),
                                domain@,
                            ),
                    decreases expressions@.len() - i,
                {
                    if regex_is_match(&expressions[i], domain) {
                        assert(self.model()->Regexes_0[i as int] == expressions@[i as int].pattern());
                        return true;
                    }
                    i += 1;
                }
                proof {
                    assert forall|k: int| 0 <= k < self.model()->Regexes_0.len() implies !spec_regex_is_match(
                        self.model()->Regexes_0[k],
                        domain@,
                    ) by {
                        assert(self.model()->Regexes_0[k] == expressions@[k].pattern());
                    }
                }
                false
            },
        }
    }
}

/// A parsed sing-box domain rule set.
pub struct DomainRuleSet {
    pub rules: Vec<RuleExpression>,
}

impl DomainRuleSet {
    /// The rules, as the file describes them.
    pub open spec fn model(&self) -> Seq<RuleModel> {
        spec_models(self.rules@)
    }

    /// Every rule is well formed.
    pub open spec fn wf(&self) -> bool {
        forall|i: int| 0 <= i < self.rules@.len() ==> (#[trigger] self.rules@[i]).wf()
    }

    /// Some rule matches the domain, after trailing dots are dropped and it is
    /// lower-cased; an empty domain matches nothing.
    pub fn matches(&self, domain: &str) -> (r: bool)
        requires
            self.wf(),
        ensures
            r == spec_rule_set_matches(self.model(), domain@),
    {
        let chars = chars_of(domain);
        let trimmed = trim_end_char(chars.as_slice(), '.');
        let lowered = lower(trimmed.as_slice());
        if lowered.len() == 0 {
            return false;
        }
        let d = string_from_chars(&lowered);
        let mut i: usize = 0;
        while i < self.rules.len()
            invariant
                self.wf(),
                i <= self.rules@.len(),
                d@ == spec_rule_domain(domain@),
                d@.len() > 0,
                forall|k: int| 0 <= k < i ==> !spec_rule_matches(#[trigger] self.model()[k], d@),
            decreases self.rules@.len() - i,
        {
            if self.rules[i].matches(d.as_str()) {
                assert(self.model()[i as int] == self.rules@[i as int].model());
                return true;
            }
            i += 1;
        }
        false
    }

    /// The number of top-level rules.
    pub fn rule_count(&self) -> (r: usize)
        ensures
            r == self.rules@.len(),
    {
        self.rules.len()
    }
}


pub proof fn lemma_uvarint_from_advances(b: Seq<u8>, p: int, index: int, acc: u64)
    requires
        0 <= index,
        0 <= p,
    ensures
        spec_uvarint_from(b, p, index, acc) matches Ok((_, q)) ==> p < q <= b.len(),
    decreases 10 - index,
{
    if 0 <= index < 10 && 0 <= p + index < b.len() {
        let byte = b[p + index];
        let bits = byte & 0x7f;
        let value = acc | ((bits as u64) << ((index * 7) as u64));
        lemma_uvarint_from_advances(b, p, index + 1, value);
    }
}

pub proof fn lemma_read_len_advances(b: Seq<u8>, p: int, limit: int)
    requires
        0 <= p,
    ensures
        spec_read_len(b, p, limit) matches Ok((_, q)) ==> p < q <= b.len(),
{
    lemma_uvarint_from_advances(b, p, 0, 0);
}

pub proof fn lemma_read_bytes_advances(b: Seq<u8>, p: int)
    requires
        0 <= p,
    ensures
        spec_read_bytes(b, p) matches Ok((_, q)) ==> p < q <= b.len(),
{
    lemma_read_len_advances(b, p, MAX_UNCOMPRESSED_RULE_SET_BYTES as int);
}

pub proof fn lemma_read_u64s_advances(b: Seq<u8>, p: int)
    requires
        0 <= p,
    ensures
        spec_read_u64s(b, p) matches Ok((_, q)) ==> p < q <= b.len(),
{
    lemma_read_len_advances(b, p, (MAX_UNCOMPRESSED_RULE_SET_BYTES / 8) as int);
}

pub proof fn lemma_read_n_strings_advances(b: Seq<u8>, p: int, n: nat)
    requires
        0 <= p <= b.len(),
    ensures
        spec_read_n_strings(b, p, n) matches Ok((_, q)) ==> p <= q <= b.len(),
    decreases n,
{
    if n > 0 {
        lemma_read_bytes_advances(b, p);
        if let Ok((_, q)) = spec_read_bytes(b, p) {
            lemma_read_n_strings_advances(b, q, (n - 1) as nat);
        }
    }
}

pub proof fn lemma_read_strings_advances(b: Seq<u8>, p: int)
    requires
        0 <= p,
    ensures
        spec_read_strings(b, p) matches Ok((_, q)) ==> p < q <= b.len(),
{
    lemma_read_len_advances(b, p, MAX_RULE_ITEM_VALUES as int);
    if let Ok((n, q)) = spec_read_len(b, p, MAX_RULE_ITEM_VALUES as int) {
        lemma_read_n_strings_advances(b, q, n as nat);
    }
}

pub proof fn lemma_read_matcher_advances(b: Seq<u8>, p: int)
    requires
        0 <= p,
    ensures
        spec_read_matcher(b, p) matches Ok((_, q)) ==> p < q <= b.len(),
{
    if let Ok((_, p1)) = spec_read_u8(b, p) {
        lemma_read_u64s_advances(b, p1);
        if let Ok((_, p2)) = spec_read_u64s(b, p1) {
            lemma_read_u64s_advances(b, p2);
            if let Ok((_, p3)) = spec_read_u64s(b, p2) {
                lemma_read_bytes_advances(b, p3);
            }
        }
    }
}

/// Every pattern compiles.
pub open spec fn spec_all_regex_valid(patterns: Seq<Seq<char>>) -> bool {
    forall|i: int| 0 <= i < patterns.len() ==> spec_regex_valid(patterns[i])
}

/// The rest of a default rule from `p`: domain items gathered in `conds`
/// until the final item, whose flag inverts the rule. Several conditions are
/// alternatives.
pub open spec fn spec_default_rule(b: Seq<u8>, p: int, conds: Seq<RuleModel>) -> Result<
    (RuleModel, int),
    SrsError,
>
    decreases b.len() - p,
{
    match spec_read_u8(b, p) {
        Err(e) => Err(e),
        Ok((item, q)) => if item == RULE_ITEM_DOMAIN {
            match spec_read_matcher(b, q) {
                Err(e) => Err(e),
                Ok((t, r)) => {
                    proof {
                        lemma_read_matcher_advances(b, q);
                    }
                    spec_default_rule(b, r, conds.push(RuleModel::Domain(t)))
                },
            }
        } else if item == RULE_ITEM_DOMAIN_KEYWORD {
            match spec_read_strings(b, q) {
                Err(e) => Err(e),
                Ok((keywords, r)) => {
                    proof {
                        lemma_read_strings_advances(b, q);
                    }
                    spec_default_rule(
                        b,
                        r,
                        conds.push(
                            RuleModel::Keywords(keywords.map_values(|k: Seq<char>| spec_lower(k))),
                        ),
                    )
                },
            }
        } else if item == RULE_ITEM_DOMAIN_REGEX {
            match spec_read_strings(b, q) {
                Err(e) => Err(e),
                Ok((patterns, r)) => {
                    proof {
                        lemma_read_strings_advances(b, q);
                    }
                    if !spec_all_regex_valid(patterns) {
                        Err(SrsError::InvalidRegex)
                    } else {
                        spec_default_rule(b, r, conds.push(RuleModel::Regexes(patterns)))
                    }
                },
            }
        } else if item == RULE_ITEM_FINAL {
            match spec_read_u8(b, q) {
                Err(e) => Err(e),
                Ok((invert, r)) => if conds.len() == 0 {
                    Err(SrsError::NoDomainCondition)
                } else {
                    let rule = if conds.len() == 1 {
                        conds[0]
                    } else {
                        RuleModel::Any(conds)
                    };
                    Ok(
                        (
                            if invert != 0 {
                                RuleModel::Not(Box::new(rule))
                            } else {
                                rule
                            },
                            r,
                        ),
                    )
                },
            }
        } else {
            Err(SrsError::NotDomainBased { item })
        },
    }
}

/// How many more levels of logical rules may nest below `depth`.
pub open spec fn spec_depth_room(depth: int) -> int {
    if depth <= MAX_LOGICAL_RULE_DEPTH + 1 {
        MAX_LOGICAL_RULE_DEPTH + 1 - depth
    } else {
        0
    }
}

/// A rule at nesting `depth`: a type byte, then a default or a logical rule.
pub open spec fn spec_rule(b: Seq<u8>, p: int, depth: int) -> Result<(RuleModel, int), SrsError>
    decreases spec_depth_room(depth), 2int,
{
    if depth > MAX_LOGICAL_RULE_DEPTH {
        Err(SrsError::DepthExceeded)
    } else {
        match spec_read_u8(b, p) {
            Err(e) => Err(e),
            Ok((kind, q)) => if kind == 0 {
                spec_default_rule(b, q, Seq::empty())
            } else if kind == 1 {
                spec_logical_rule(b, q, depth)
            } else {
                Err(SrsError::UnknownRuleType { kind })
            },
        }
    }
}

/// A logical rule: its mode, its child rules (at least one), then its
/// inversion flag.
pub open spec fn spec_logical_rule(b: Seq<u8>, p: int, depth: int) -> Result<
    (RuleModel, int),
    SrsError,
>
    decreases spec_depth_room(depth), 1int,
{
    if depth > MAX_LOGICAL_RULE_DEPTH {
        Err(SrsError::DepthExceeded)
    } else {
        match spec_read_u8(b, p) {
            Err(e) => Err(e),
            Ok((mode, q)) => match spec_read_len(b, q, MAX_RULES as int) {
                Err(e) => Err(e),
                Ok((count, r)) => if count == 0 {
                    Err(SrsError::EmptyLogicalRule)
                } else {
                    match spec_rules_n(b, r, depth + 1, count as nat) {
                        Err(e) => Err(e),
                        Ok((rules, t)) => if mode != 0 && mode != 1 {
                            Err(SrsError::UnknownLogicalMode { mode })
                        } else {
                            let rule = if mode == 0 {
                                RuleModel::All(rules)
                            } else {
                                RuleModel::Any(rules)
                            };
                            match spec_read_u8(b, t) {
                                Err(e) => Err(e),
                                Ok((invert, u)) => Ok(
                                    (
                                        if invert != 0 {
                                            RuleModel::Not(Box::new(rule))
                                        } else {
                                            rule
                                        },
                                        u,
                                    ),
                                ),
                            }
                        },
                    }
                },
            },
        }
    }
}

/// `n` rules in a row at nesting `depth`.
pub open spec fn spec_rules_n(b: Seq<u8>, p: int, depth: int, n: nat) -> Result<
    (Seq<RuleModel>, int),
    SrsError,
>
    decreases spec_depth_room(depth), n + 2,
{
    if n == 0 {
        Ok((Seq::empty(), p))
    } else {
        match spec_rule(b, p, depth) {
            Err(e) => Err(e),
            Ok((rule, q)) => match spec_rules_n(b, q, depth, (n - 1) as nat) {
                Err(e) => Err(e),
                Ok((rest, r)) => Ok((seq![rule] + rest, r)),
            },
        }
    }
}

/// `done` in front of the rules that a read gives, if it succeeds.
pub open spec fn spec_prepend_rules(
    done: Seq<RuleModel>,
    r: Result<(Seq<RuleModel>, int), SrsError>,
) -> Result<(Seq<RuleModel>, int), SrsError> {
    match r {
        Ok((rest, q)) => Ok((done + rest, q)),
        Err(e) => Err(e),
    }
}

/// A decompressed SRS payload: the rule count (at most `MAX_RULES`), then
/// the rules; anything after them is ignored.
pub open spec fn spec_parse_payload(b: Seq<u8>) -> Result<Seq<RuleModel>, SrsError> {
    match spec_read_len(b, 0, MAX_RULES as int) {
        Err(e) => Err(e),
        Ok((count, q)) => match spec_rules_n(b, q, 0, count as nat) {
            Err(e) => Err(e),
            Ok((rules, _)) => Ok(rules),
        },
    }
}


proof fn lemma_models_push(rules: Seq<RuleExpression>, x: RuleExpression)
    ensures
        spec_models(rules.push(x)) =~= spec_models(rules).push(x.model()),
{
}

/// Reads the items of a default rule, up to and including its final item.
#[verifier::loop_isolation(false)]
pub fn parse_default_rule(reader: &mut SrsReader) -> (r: Result<RuleExpression, SrsError>)
    requires
        old(reader).wf(),
    ensures
        final(reader).wf(),
        final(reader).data() == old(reader).data(),
        r matches Ok(e) ==> e.wf() && spec_default_rule(
            old(reader).data(),
            old(reader).pos(),
            Seq::empty(),
        ) == Ok::<(RuleModel, int), SrsError>((e.model(), final(reader).pos())),
        r matches Err(x) ==> spec_default_rule(old(reader).data(), old(reader).pos(), Seq::empty())
            == Err::<(RuleModel, int), SrsError>(x),
{
    let ghost b = reader.data();
    let ghost p0 = reader.pos();
    let mut conditions: Vec<RuleExpression> = Vec::new();
    assert(spec_models(conditions@) =~= Seq::<RuleModel>::empty());
    loop
        invariant
            reader.wf(),
            reader.data() == b,
            b == old(reader).data(),
            p0 == old(reader).pos(),
            forall|i: int| 0 <= i < conditions@.len() ==> (#[trigger] conditions@[i]).wf(),
            spec_default_rule(b, p0, Seq::empty()) == spec_default_rule(
                b,
                reader.pos(),
                spec_models(conditions@),
            ),
        decreases b.len() - reader.pos(),
    {
        let ghost p = reader.pos();
        let ghost conds = spec_models(conditions@);
        let item_type = reader.read_u8()?;
        let ghost q = reader.pos();
        if item_type == RULE_ITEM_DOMAIN {
            let matcher = SrsDomainMatcher::parse(reader)?;
            proof {
                lemma_read_matcher_advances(b, q);
                lemma_models_push(conditions@, RuleExpression::DomainMatcher(matcher));
            }
            conditions.push(RuleExpression::DomainMatcher(matcher));
        } else if item_type == RULE_ITEM_DOMAIN_KEYWORD {
            let strings = reader.read_strings()?;
            proof {
                lemma_read_strings_advances(b, q);
            }
            let ghost raw = spec_read_strings(b, q)->Ok_0.0;
            let mut keywords: Vec<String> = Vec::new();
            let mut i: usize = 0;
            while i < strings.len()
                invariant
                    i <= strings@.len(),
                    strings@.len() == raw.len(),
                    forall|k: int| 0 <= k < raw.len() ==> #[trigger] strings@[k]@ == raw[k],
                    keywords@.len() == i,
                    forall|k: int| 0 <= k < i ==> #[trigger] keywords@[k]@ == spec_lower(raw[k]),
                decreases strings@.len() - i,
            {
                let chars = chars_of(strings[i].as_str());
                let lowered = lower(chars.as_slice());
                keywords.push(string_from_chars(&lowered));
                i += 1;
            }
            let rule = RuleExpression::DomainKeyword(keywords);
            proof {
                assert(rule.model() == RuleModel::Keywords(
                    raw.map_values(|k: Seq<char>| spec_lower(k)),
                )) by {
                    assert(rule.model()->Keywords_0 =~= raw.map_values(|k: Seq<char>| spec_lower(k)));
                }
                lemma_models_push(conditions@, rule);
            }
            conditions.push(rule);
        } else if item_type == RULE_ITEM_DOMAIN_REGEX {
            let strings = reader.read_strings()?;
            proof {
                lemma_read_strings_advances(b, q);
            }
            let ghost raw = spec_read_strings(b, q)->Ok_0.0;
            let mut expressions: Vec<DomainRegex> = Vec::new();
            let mut i: usize = 0;
            let n = strings.len();
            while i < n
                invariant
                    i <= n,
                    n == raw.len(),
                    strings@.len() == n,
                    forall|k: int| 0 <= k < n ==> #[trigger] strings@[k]@ == raw[k],
                    expressions@.len() == i,
                    forall|k: int| 0 <= k < i ==> #[trigger] expressions@[k].pattern() == raw[k],
                    forall|k: int| 0 <= k < i ==> spec_regex_valid(#[trigger] raw[k]),
                decreases n - i,
            {
                let pattern = strings[i].clone();
                match DomainRegex::new(pattern) {
                    Some(expression) => expressions.push(expression),
                    None => {
                        return Err(SrsError::InvalidRegex);
                    },
                }
                i += 1;
            }
            let rule = RuleExpression::DomainRegex(expressions);
            proof {
                assert(rule.model() == RuleModel::Regexes(raw)) by {
                    assert(rule.model()->Regexes_0 =~= raw);
                }
                lemma_models_push(conditions@, rule);
            }
            conditions.push(rule);
        } else if item_type == RULE_ITEM_FINAL {
            let invert = reader.read_bool()?;
            if conditions.len() == 0 {
                return Err(SrsError::NoDomainCondition);
            }
            let expression = if conditions.len() == 1 {
                let only = conditions.pop().unwrap();
                assert(only.model() == conds[0]);
                only
            } else {
                let any = RuleExpression::Any(conditions);
                assert(any.model()->Any_0 =~= conds);
                any
            };
            assert(expression.wf());
            return Ok(
                if invert {
                    RuleExpression::Not(Box::new(expression))
                } else {
                    expression
                },
            );
        } else {
            return Err(SrsError::NotDomainBased { item: item_type });
        }
    }
}

/// Reads a rule at nesting `depth`.
pub fn parse_rule(reader: &mut SrsReader, depth: usize) -> (r: Result<RuleExpression, SrsError>)
    requires
        old(reader).wf(),
    ensures
        final(reader).wf(),
        final(reader).data() == old(reader).data(),
        r matches Ok(e) ==> e.wf() && spec_rule(old(reader).data(), old(reader).pos(), depth as int)
            == Ok::<(RuleModel, int), SrsError>((e.model(), final(reader).pos())),
        r matches Err(x) ==> spec_rule(old(reader).data(), old(reader).pos(), depth as int) == Err::<
            (RuleModel, int),
            SrsError,
        >(x),
    decreases spec_depth_room(depth as int), 2int,
{
    if depth > MAX_LOGICAL_RULE_DEPTH {
        return Err(SrsError::DepthExceeded);
    }
    let kind = reader.read_u8()?;
    if kind == 0 {
        parse_default_rule(reader)
    } else if kind == 1 {
        parse_logical_rule(reader, depth)
    } else {
        Err(SrsError::UnknownRuleType { kind })
    }
}

/// Reads a logical rule at nesting `depth`, after its type byte.
pub fn parse_logical_rule(reader: &mut SrsReader, depth: usize) -> (r: Result<
    RuleExpression,
    SrsError,
>)
    requires
        old(reader).wf(),
        depth <= MAX_LOGICAL_RULE_DEPTH,
    ensures
        final(reader).wf(),
        final(reader).data() == old(reader).data(),
        r matches Ok(e) ==> e.wf() && spec_logical_rule(
            old(reader).data(),
            old(reader).pos(),
            depth as int,
        ) == Ok::<(RuleModel, int), SrsError>((e.model(), final(reader).pos())),
        r matches Err(x) ==> spec_logical_rule(old(reader).data(), old(reader).pos(), depth as int)
            == Err::<(RuleModel, int), SrsError>(x),
    decreases spec_depth_room(depth as int), 1int,
{
    let ghost b = reader.data();
    let ghost p0 = reader.pos();
    let mode = reader.read_u8()?;
    let ghost p1 = reader.pos();
    let count = reader.read_len(MAX_RULES)?;
    if count == 0 {
        return Err(SrsError::EmptyLogicalRule);
    }
    let ghost start = reader.pos();
    let mut rules: Vec<RuleExpression> = Vec::new();
    let mut i: usize = 0;
    assert(spec_models(rules@) + Seq::<RuleModel>::empty() =~= Seq::<RuleModel>::empty());
    while i < count
        invariant
            i <= count,
            depth <= MAX_LOGICAL_RULE_DEPTH,
            reader.wf(),
            reader.data() == b,
            b == old(reader).data(),
            rules@.len() == i,
            p0 == old(reader).pos(),
            spec_read_u8(b, p0) == Ok::<(u8, int), SrsError>((mode, p1)),
            spec_read_len(b, p1, MAX_RULES as int) == Ok::<(usize, int), SrsError>((count, start)),
            count > 0,
            forall|k: int| 0 <= k < rules@.len() ==> (#[trigger] rules@[k]).wf(),
            spec_rules_n(b, start, depth + 1, count as nat) == spec_prepend_rules(
                spec_models(rules@),
                spec_rules_n(b, reader.pos(), depth + 1, (count - i) as nat),
            ),
        decreases count - i,
    {
        let ghost pos = reader.pos();
        let rule = match parse_rule(reader, depth + 1) {
            Ok(rule) => rule,
            Err(e) => {
                assert(spec_rules_n(b, pos, depth + 1, (count - i) as nat) == Err::<
                    (Seq<RuleModel>, int),
                    SrsError,
                >(e));
                return Err(e);
            },
        };
        proof {
            let done = spec_models(rules@);
            lemma_models_push(rules@, rule);
            match spec_rules_n(b, reader.pos(), depth + 1, (count - i - 1) as nat) {
                Ok((rest, q)) => {
                    assert(done.push(rule.model()) + rest =~= done + (seq![rule.model()] + rest));
                },
                Err(_) => {},
            }
        }
        rules.push(rule);
        i += 1;
    }
    assert(spec_models(rules@) + Seq::<RuleModel>::empty() =~= spec_models(rules@));
    let expression = if mode == 0 {
        let all = RuleExpression::All(rules);
        assert(all.model()->All_0 =~= spec_models(rules@));
        all
    } else if mode == 1 {
        let any = RuleExpression::Any(rules);
        assert(any.model()->Any_0 =~= spec_models(rules@));
        any
    } else {
        return Err(SrsError::UnknownLogicalMode { mode });
    };
    assert(expression.wf());
    let invert = reader.read_bool()?;
    Ok(
        if invert {
            RuleExpression::Not(Box::new(expression))
        } else {
            expression
        },
    )
}

/// Parses a decompressed SRS payload: the rule count, then the rules.
pub fn parse_srs_payload(payload: &[u8]) -> (r: Result<DomainRuleSet, SrsError>)
    ensures
        r matches Ok(set) ==> set.wf() && spec_parse_payload(payload@) == Ok::<
            Seq<RuleModel>,
            SrsError,
        >(set.model()),
        r matches Err(e) ==> spec_parse_payload(payload@) == Err::<Seq<RuleModel>, SrsError>(e),
{
    let mut reader = SrsReader::new(payload);
    let ghost b = payload@;
    let count = reader.read_len(MAX_RULES)?;
    let ghost start = reader.pos();
    let mut rules: Vec<RuleExpression> = Vec::new();
    let mut i: usize = 0;
    assert(spec_models(rules@) + Seq::<RuleModel>::empty() =~= Seq::<RuleModel>::empty());
    while i < count
        invariant
            i <= count,
            reader.wf(),
            reader.data() == b,
            b == payload@,
            rules@.len() == i,
            forall|k: int| 0 <= k < rules@.len() ==> (#[trigger] rules@[k]).wf(),
            spec_read_len(b, 0, MAX_RULES as int) == Ok::<(usize, int), SrsError>((count, start)),
            spec_rules_n(b, start, 0, count as nat) == spec_prepend_rules(
                spec_models(rules@),
                spec_rules_n(b, reader.pos(), 0, (count - i) as nat),
            ),
        decreases count - i,
    {
        let ghost pos = reader.pos();
        let rule = match parse_rule(&mut reader, 0) {
            Ok(rule) => rule,
            Err(e) => {
                assert(spec_rules_n(b, pos, 0, (count - i) as nat) == Err::<
                    (Seq<RuleModel>, int),
                    SrsError,
                >(e));
                assert(spec_rules_n(b, start, 0, count as nat) == Err::<
                    (Seq<RuleModel>, int),
                    SrsError,
                >(e));
                return Err(e);
            },
        };
        proof {
            let done = spec_models(rules@);
            lemma_models_push(rules@, rule);
            match spec_rules_n(b, reader.pos(), 0, (count - i - 1) as nat) {
                Ok((rest, q)) => {
                    assert(done.push(rule.model()) + rest =~= done + (seq![rule.model()] + rest));
                },
                Err(_) => {},
            }
        }
        rules.push(rule);
        i += 1;
    }
    assert(spec_models(rules@) + Seq::<RuleModel>::empty() =~= spec_models(rules@));
    Ok(DomainRuleSet { rules })
}

/// What a zlib stream decompresses to, read up to `limit` bytes (`None`
/// where flate2 reports an error).
pub uninterp spec fn spec_zlib_inflate(data: Seq<u8>, limit: u64) -> Option<Seq<u8>>;

/// Decompresses a zlib stream with `flate2::read::ZlibDecoder`, reading at
/// most `limit` bytes through `Read::take`; the contract names the result
/// and states the limit that `take` documents.
#[verifier::external_body]
fn zlib_inflate(data: &[u8], limit: u64) -> (r: Option<Vec<u8>>)
    ensures
        r matches Some(v) ==> spec_zlib_inflate(data@, limit) == Some(v@) && v@.len() <= limit,
        r is None ==> spec_zlib_inflate(data@, limit) is None,
{
    let mut decoder = flate2::read::ZlibDecoder::new(data);
    let mut payload = Vec::new();
    match std::io::Read::read_to_end(
        &mut std::io::Read::take(std::io::Read::by_ref(&mut decoder), limit),
        &mut payload,
    ) {
        Ok(_) => Some(payload),
        Err(_) => None,
    }
}

/// The rules of a sing-box SRS file: the magic `SRS`, a version from 1 to 5,
/// then a zlib payload of at most `MAX_UNCOMPRESSED_RULE_SET_BYTES`.
pub open spec fn spec_parse_srs(bytes: Seq<u8>) -> Result<Seq<RuleModel>, SrsError> {
    if bytes.len() < 4 {
        Err(SrsError::ShortHeader)
    } else if bytes[0] != 0x53 || bytes[1] != 0x52 || bytes[2] != 0x53 {
        Err(SrsError::BadMagic)
    } else if bytes[3] < 1 || bytes[3] > 5 {
        Err(SrsError::UnsupportedVersion { version: bytes[3] })
    } else {
        match spec_zlib_inflate(
            bytes.subrange(4, bytes.len() as int),
            (MAX_UNCOMPRESSED_RULE_SET_BYTES + 1) as u64,
        ) {
            None => Err(SrsError::Decompress),
            Some(payload) => if payload.len() > MAX_UNCOMPRESSED_RULE_SET_BYTES {
                Err(SrsError::PayloadTooLarge)
            } else {
                spec_parse_payload(payload)
            },
        }
    }
}

/// Parses a sing-box binary SRS rule set (versions 1 through 5), keeping its
/// domain rules; any other rule item refuses the file.
pub fn parse_sing_box_srs(bytes: &[u8]) -> (r: Result<DomainRuleSet, SrsError>)
    ensures
        r matches Ok(set) ==> set.wf() && spec_parse_srs(bytes@) == Ok::<Seq<RuleModel>, SrsError>(
            set.model(),
        ),
        r matches Err(e) ==> spec_parse_srs(bytes@) == Err::<Seq<RuleModel>, SrsError>(e),
{
    if bytes.len() < 4 {
        return Err(SrsError::ShortHeader);
    }
    if bytes[0] != 0x53 || bytes[1] != 0x52 || bytes[2] != 0x53 {
        return Err(SrsError::BadMagic);
    }
    let version = bytes[3];
    if version < 1 || version > 5 {
        return Err(SrsError::UnsupportedVersion { version });
    }
    let body = &bytes[4..bytes.len()];
    let payload = match zlib_inflate(body, (MAX_UNCOMPRESSED_RULE_SET_BYTES + 1) as u64) {
        Some(payload) => payload,
        None => {
            return Err(SrsError::Decompress);
        },
    };
    if payload.len() > MAX_UNCOMPRESSED_RULE_SET_BYTES {
        return Err(SrsError::PayloadTooLarge);
    }
    parse_srs_payload(payload.as_slice())
}


/// A loaded rule set with the configured source it came from.
pub struct LoadedRuleSet {
    pub tag: String,
    pub source: RuleSetConfig,
    pub rules: Arc<DomainRuleSet>,
}

/// The first stored rule set, from `from` on, with the tag.
pub open spec fn spec_find_loaded(sets: Seq<LoadedRuleSet>, tag: Seq<char>, from: int) -> Option<int>
    decreases sets.len() - from,
{
    if from < 0 || from >= sets.len() {
        None
    } else if sets[from].tag@ == tag {
        Some(from)
    } else {
        spec_find_loaded(sets, tag, from + 1)
    }
}

proof fn lemma_find_loaded(sets: Seq<LoadedRuleSet>, tag: Seq<char>, from: int)
    requires
        0 <= from,
    ensures
        spec_find_loaded(sets, tag, from) matches Some(i) ==> from <= i < sets.len()
            && sets[i].tag@ == tag,
        spec_find_loaded(sets, tag, from) is None ==> forall|k: int|
            from <= k < sets.len() ==> sets[k].tag@ != tag,
    decreases sets.len() - from,
{
    if from < sets.len() && sets[from].tag@ != tag {
        lemma_find_loaded(sets, tag, from + 1);
    }
}

/// The stored rule sets after storing `set` under its tag, in place of the
/// one stored there before.
pub open spec fn spec_store_insert(sets: Seq<LoadedRuleSet>, set: LoadedRuleSet) -> Seq<LoadedRuleSet> {
    match spec_find_loaded(sets, set.tag@, 0) {
        Some(i) => sets.update(i, set),
        None => sets.push(set),
    }
}

/// The rule sets in use during layer selection, at most one per tag.
pub struct RuleSetStore {
    sets: Vec<LoadedRuleSet>,
}

impl RuleSetStore {
    /// The stored rule sets.
    pub closed spec fn entries(&self) -> Seq<LoadedRuleSet> {
        self.sets@
    }

    /// No tag is stored twice and every rule set is well formed.
    pub open spec fn wf(&self) -> bool {
        &&& forall|i: int, j: int|
            0 <= i < j < self.entries().len() ==> (#[trigger] self.entries()[i]).tag@
                != (#[trigger] self.entries()[j]).tag@
        &&& forall|i: int| 0 <= i < self.entries().len() ==> (#[trigger] self.entries()[i]).rules.wf()
    }

    /// The rule set stored under `tag` came from the expected source and
    /// matches the domain.
    pub open spec fn spec_matches(
        &self,
        tag: Seq<char>,
        expected: Option<RuleSetConfig>,
        domain: Seq<char>,
    ) -> bool {
        exists|i: int|
            0 <= i < self.entries().len() && (#[trigger] self.entries()[i]).tag@ == tag
                && expected is Some && self.entries()[i].source.spec_same(expected->0)
                && spec_rule_set_matches(self.entries()[i].rules.model(), domain)
    }

    pub fn new() -> (r: RuleSetStore)
        ensures
            r.entries().len() == 0,
            r.wf(),
    {
        RuleSetStore { sets: Vec::new() }
    }

    /// Stores a rule set under its tag, in place of the one stored there before.
    pub fn insert(&mut self, set: LoadedRuleSet)
        requires
            old(self).wf(),
            set.rules.wf(),
        ensures
            final(self).wf(),
            final(self).entries() == spec_store_insert(old(self).entries(), set),
    {
        let ghost before = self.sets@;
        proof {
            lemma_find_loaded(before, set.tag@, 0);
        }
        let mut i: usize = 0;
        while i < self.sets.len()
            invariant
                i <= self.sets@.len(),
                self.sets@ == before,
                before == old(self).entries(),
                old(self).wf(),
                set.rules.wf(),
                spec_find_loaded(before, set.tag@, 0) == spec_find_loaded(before, set.tag@, i as int),
            decreases self.sets@.len() - i,
        {
            if str_equal(self.sets[i].tag.as_str(), set.tag.as_str()) {
                self.sets.set(i, set);
                proof {
                    assert forall|a: int, b: int| 0 <= a < b < self.entries().len() implies (
                    #[trigger] self.entries()[a]).tag@ != (#[trigger] self.entries()[b]).tag@ by {
                        assert(before[a].tag@ != before[b].tag@);
                    }
                    assert forall|k: int| 0 <= k < self.entries().len() implies (
                    #[trigger] self.entries()[k]).rules.wf() by {
                        if k != i {
                            assert(self.sets@[k] == before[k]);
                        }
                    }
                }
                return;
            }
            i += 1;
        }
        proof {
            lemma_find_loaded(before, set.tag@, 0);
        }
        self.sets.push(set);
        proof {
            assert forall|a: int, b: int| 0 <= a < b < self.entries().len() implies (
            #[trigger] self.entries()[a]).tag@ != (#[trigger] self.entries()[b]).tag@ by {
                assert(self.sets@[a] == before[a]);
                if b < before.len() {
                    assert(self.sets@[b] == before[b]);
                }
            }
            assert forall|k: int| 0 <= k < self.entries().len() implies (
            #[trigger] self.entries()[k]).rules.wf() by {
                if k < before.len() {
                    assert(self.sets@[k] == before[k]);
                }
            }
        }
    }

    /// A stored set counts only where it came from the currently selected
    /// source: a just-reloaded configuration never uses an old set that kept
    /// its tag.
    pub fn matches(&self, tag: &str, expected_source: Option<&RuleSetConfig>, domain: &str) -> (r:
        bool)
        requires
            self.wf(),
        ensures
            r == self.spec_matches(
                tag@,
                match expected_source {
                    Some(s) => Some(*s),
                    None => None,
                },
                domain@,
            ),
    {
        let expected = match expected_source {
            Some(expected) => expected,
            None => return false,
        };
        let mut i: usize = 0;
        while i < self.sets.len()
            invariant
                self.wf(),
                expected_source == Some(expected),
                i <= self.sets@.len(),
                forall|k: int| 0 <= k < i ==> self.sets@[k].tag@ != tag@,
            decreases self.sets@.len() - i,
        {
            let set = &self.sets[i];
            if str_equal(set.tag.as_str(), tag) {
                proof {
                    assert forall|k: int|
                        0 <= k < self.sets@.len() && self.sets@[k].tag@ == tag@ implies k == i by {
                        if k != i {
                            if k < i {
                                assert(self.entries()[k].tag@ != self.entries()[i as int].tag@);
                            } else {
                                assert(self.entries()[i as int].tag@ != self.entries()[k].tag@);
                            }
                        }
                    }
                    assert(self.entries()[i as int].rules.wf());
                }
                let same = set.source.same_source(expected);
                if !same {
                    return false;
                }
                let found = set.rules.matches(domain);
                proof {
                    assert(*set == self.entries()[i as int]);
                    if found {
                        assert(self.entries()[i as int].tag@ == tag@);
                    }
                }
                return found;
            }
            i += 1;
        }
        false
    }
}

/// `Arc::clone`: another pointer to the same rule set.
#[verifier::external_body]
fn share_rules(rules: &Arc<DomainRuleSet>) -> (r: Arc<DomainRuleSet>)
    ensures
        r == *rules,
{
    Arc::clone(rules)
}

/// What the refresh worker keeps for one configured rule set: the source it
/// last read, the rules it last loaded from it (if any), and when to read it
/// again (in milliseconds of a monotonic clock).
pub struct RefreshEntry {
    pub source: RuleSetConfig,
    pub rules: Option<Arc<DomainRuleSet>>,
    pub refresh_at_ms: u64,
}

impl RefreshEntry {
    /// A copy of the entry, sharing its rules.
    pub fn duplicate(&self) -> (r: RefreshEntry)
        ensures
            r == *self,
    {
        RefreshEntry {
            source: self.source.duplicate(),
            rules: match &self.rules {
                Some(rules) => Some(share_rules(rules)),
                None => None,
            },
            refresh_at_ms: self.refresh_at_ms,
        }
    }
}

/// The first entry, from `from` on, for the tag.
pub open spec fn spec_find_entry(entries: Seq<RefreshEntry>, tag: Seq<char>, from: int) -> Option<int>
    decreases entries.len() - from,
{
    if from < 0 || from >= entries.len() {
        None
    } else if entries[from].source.tag@ == tag {
        Some(from)
    } else {
        spec_find_entry(entries, tag, from + 1)
    }
}

proof fn lemma_find_entry(entries: Seq<RefreshEntry>, tag: Seq<char>, from: int)
    requires
        0 <= from,
    ensures
        spec_find_entry(entries, tag, from) matches Some(i) ==> from <= i < entries.len()
            && entries[i].source.tag@ == tag,
        spec_find_entry(entries, tag, from) is None ==> forall|k: int|
            from <= k < entries.len() ==> entries[k].source.tag@ != tag,
    decreases entries.len() - from,
{
    if from < entries.len() && entries[from].source.tag@ != tag {
        lemma_find_entry(entries, tag, from + 1);
    }
}

/// The source is stored unchanged.
pub open spec fn spec_unchanged(entries: Seq<RefreshEntry>, source: RuleSetConfig) -> bool {
    spec_find_entry(entries, source.tag@, 0) matches Some(i) && entries[i].source.spec_same(source)
}

/// The source is new, changed, or due for another read.
pub open spec fn spec_needs_refresh(
    entries: Seq<RefreshEntry>,
    source: RuleSetConfig,
    now_ms: u64,
) -> bool {
    let due = match spec_find_entry(entries, source.tag@, 0) {
        None => true,
        Some(i) => now_ms >= entries[i].refresh_at_ms,
    };
    !(spec_unchanged(entries, source) && !due)
}

/// The rules that a read of `source` leaves in use: what it loaded, or, when
/// the read failed, the rules loaded before from the same unchanged source.
pub open spec fn spec_kept_rules(
    entries: Seq<RefreshEntry>,
    source: RuleSetConfig,
    loaded: Option<Arc<DomainRuleSet>>,
) -> Option<Arc<DomainRuleSet>> {
    match loaded {
        Some(rules) => Some(rules),
        None => if spec_unchanged(entries, source) {
            entries[spec_find_entry(entries, source.tag@, 0)->0].rules
        } else {
            None
        },
    }
}

/// The entries after a read of `source`.
pub open spec fn spec_record(
    entries: Seq<RefreshEntry>,
    source: RuleSetConfig,
    loaded: Option<Arc<DomainRuleSet>>,
    refresh_at_ms: u64,
) -> Seq<RefreshEntry> {
    let entry = RefreshEntry {
        source,
        rules: spec_kept_rules(entries, source, loaded),
        refresh_at_ms,
    };
    match spec_find_entry(entries, source.tag@, 0) {
        Some(i) => entries.update(i, entry),
        None => entries.push(entry),
    }
}

/// Some configured rule set has the tag.
pub open spec fn spec_configured(rule_sets: Seq<RuleSetConfig>, tag: Seq<char>) -> bool {
    exists|j: int| 0 <= j < rule_sets.len() && (#[trigger] rule_sets[j]).tag@ == tag
}

/// The entries whose tag is still configured, in order.
pub open spec fn spec_retain(entries: Seq<RefreshEntry>, rule_sets: Seq<RuleSetConfig>) -> Seq<
    RefreshEntry,
>
    decreases entries.len(),
{
    if entries.len() == 0 {
        Seq::empty()
    } else {
        let rest = spec_retain(entries.drop_last(), rule_sets);
        if spec_configured(rule_sets, entries.last().source.tag@) {
            rest.push(entries.last())
        } else {
            rest
        }
    }
}

/// The rule sets in use: every entry with rules, under its tag, in order.
pub open spec fn spec_active(entries: Seq<RefreshEntry>) -> Seq<LoadedRuleSet>
    decreases entries.len(),
{
    if entries.len() == 0 {
        Seq::empty()
    } else {
        let rest = spec_active(entries.drop_last());
        let e = entries.last();
        if e.rules is Some {
            rest.push(LoadedRuleSet { tag: e.source.tag, source: e.source, rules: e.rules->0 })
        } else {
            rest
        }
    }
}

/// No tag twice.
pub open spec fn spec_distinct_entries(entries: Seq<RefreshEntry>) -> bool {
    forall|i: int, j: int|
        0 <= i < j < entries.len() ==> (#[trigger] entries[i]).source.tag@
            != (#[trigger] entries[j]).source.tag@
}

proof fn lemma_retain_within(entries: Seq<RefreshEntry>, rule_sets: Seq<RuleSetConfig>)
    ensures
        forall|k: int|
            0 <= k < spec_retain(entries, rule_sets).len() ==> entries.contains(
                #[trigger] spec_retain(entries, rule_sets)[k],
            ),
        spec_distinct_entries(entries) ==> spec_distinct_entries(spec_retain(entries, rule_sets)),
    decreases entries.len(),
{
    if entries.len() > 0 {
        let prefix = entries.drop_last();
        lemma_retain_within(prefix, rule_sets);
        let rest = spec_retain(prefix, rule_sets);
        assert forall|k: int| 0 <= k < rest.len() implies entries.contains(#[trigger] rest[k]) by {
            let w = choose|w: int| 0 <= w < prefix.len() && prefix[w] == rest[k];
            assert(entries[w] == rest[k]);
        }
        assert(entries[entries.len() - 1] == entries.last());
        if spec_distinct_entries(entries) {
            assert(spec_distinct_entries(prefix)) by {
                assert forall|i: int, j: int| 0 <= i < j < prefix.len() implies (
                #[trigger] prefix[i]).source.tag@ != (#[trigger] prefix[j]).source.tag@ by {
                    assert(prefix[i] == entries[i] && prefix[j] == entries[j]);
                }
            }
            assert forall|k: int| 0 <= k < rest.len() implies (#[trigger] rest[k]).source.tag@
                != entries.last().source.tag@ by {
                let w = choose|w: int| 0 <= w < prefix.len() && prefix[w] == rest[k];
                assert(entries[w] == rest[k]);
                assert(entries[w].source.tag@ != entries[entries.len() - 1].source.tag@);
            }
        }
    }
}

proof fn lemma_active_tags(entries: Seq<RefreshEntry>)
    ensures
        forall|k: int|
            #![trigger spec_active(entries)[k]]
            0 <= k < spec_active(entries).len() ==> exists|m: int|
                0 <= m < entries.len() && (#[trigger] entries[m]).source.tag@ == spec_active(
                    entries,
                )[k].tag@,
    decreases entries.len(),
{
    if entries.len() > 0 {
        let prefix = entries.drop_last();
        lemma_active_tags(prefix);
        let rest = spec_active(prefix);
        assert forall|k: int| #![trigger spec_active(entries)[k]] 0 <= k < spec_active(entries).len() implies exists|m: int|
            0 <= m < entries.len() && (#[trigger] entries[m]).source.tag@ == spec_active(
                entries,
            )[k].tag@ by {
            if k < rest.len() {
                assert(spec_active(entries)[k] == rest[k]);
                let m = choose|m: int| 0 <= m < prefix.len() && (#[trigger] prefix[m]).source.tag@ == rest[k].tag@;
                assert(entries[m] == prefix[m]);
            } else {
                assert(entries[entries.len() - 1] == entries.last());
            }
        }
    }
}

proof fn lemma_active_from(entries: Seq<RefreshEntry>)
    ensures
        forall|k: int|
            #![trigger spec_active(entries)[k]]
            0 <= k < spec_active(entries).len() ==> exists|m: int|
                0 <= m < entries.len() && (#[trigger] entries[m]).rules is Some
                    && entries[m].source.tag == spec_active(entries)[k].tag,
    decreases entries.len(),
{
    if entries.len() > 0 {
        let prefix = entries.drop_last();
        lemma_active_from(prefix);
        let rest = spec_active(prefix);
        assert forall|k: int|
            #![trigger spec_active(entries)[k]]
            0 <= k < spec_active(entries).len() implies exists|m: int|
                0 <= m < entries.len() && (#[trigger] entries[m]).rules is Some
                    && entries[m].source.tag == spec_active(entries)[k].tag by {
            if k < rest.len() {
                assert(spec_active(entries)[k] == rest[k]);
                let m = choose|m: int|
                    0 <= m < prefix.len() && (#[trigger] prefix[m]).rules is Some
                        && prefix[m].source.tag == rest[k].tag;
                assert(entries[m] == prefix[m]);
            } else {
                assert(entries[entries.len() - 1] == entries.last());
            }
        }
    }
}

/// A failed read of a new or changed source leaves nothing in use under its
/// tag: the rules loaded from the source it replaced are never served for
/// the new one.
pub proof fn law_failed_read_of_changed_source_serves_nothing(
    entries: Seq<RefreshEntry>,
    source: RuleSetConfig,
    refresh_at_ms: u64,
)
    requires
        spec_distinct_entries(entries),
        !spec_unchanged(entries, source),
    ensures
        forall|k: int|
            0 <= k < spec_active(spec_record(entries, source, None, refresh_at_ms)).len()
                ==> (#[trigger] spec_active(spec_record(entries, source, None, refresh_at_ms))[k]).tag@
                != source.tag@,
{
    let after = spec_record(entries, source, None, refresh_at_ms);
    lemma_find_entry(entries, source.tag@, 0);
    lemma_active_from(after);
    assert forall|m: int| 0 <= m < after.len() && (#[trigger] after[m]).rules is Some implies after[m].source.tag@
        != source.tag@ by {
        match spec_find_entry(entries, source.tag@, 0) {
            Some(i) => {
                if m != i {
                    assert(after[m] == entries[m]);
                    if m < i {
                        assert(entries[m].source.tag@ != entries[i].source.tag@);
                    } else {
                        assert(entries[i].source.tag@ != entries[m].source.tag@);
                    }
                }
            },
            None => {
                if m < entries.len() {
                    assert(after[m] == entries[m]);
                }
            },
        }
    }
}

/// The store built after a failed read of a new or changed source matches
/// no domain under that source's tag, whichever source a lookup expects.
pub proof fn law_store_after_failed_changed_read_matches_nothing(
    store: RuleSetStore,
    entries: Seq<RefreshEntry>,
    source: RuleSetConfig,
    refresh_at_ms: u64,
    expected: Option<RuleSetConfig>,
    domain: Seq<char>,
)
    requires
        spec_distinct_entries(entries),
        !spec_unchanged(entries, source),
        store.entries() == spec_active(spec_record(entries, source, None, refresh_at_ms)),
    ensures
        !store.spec_matches(source.tag@, expected, domain),
{
    law_failed_read_of_changed_source_serves_nothing(entries, source, refresh_at_ms);
}

/// A failed read of an unchanged source keeps the rules loaded from it
/// before.
pub proof fn law_failed_read_of_unchanged_source_keeps_rules(
    entries: Seq<RefreshEntry>,
    source: RuleSetConfig,
    refresh_at_ms: u64,
)
    requires
        spec_unchanged(entries, source),
    ensures
        ({
            let i = spec_find_entry(entries, source.tag@, 0)->0;
            let after = spec_record(entries, source, None, refresh_at_ms);
            &&& after.len() == entries.len()
            &&& after[i].rules == entries[i].rules
            &&& after[i].source == source
        }),
{
    lemma_find_entry(entries, source.tag@, 0);
}

/// A new or changed source is always read again, whatever the time.
pub proof fn law_changed_source_needs_refresh(
    entries: Seq<RefreshEntry>,
    source: RuleSetConfig,
    now_ms: u64,
)
    requires
        !spec_unchanged(entries, source),
    ensures
        spec_needs_refresh(entries, source, now_ms),
{
}

/// Keeps configured rule sets fresh: which sources to read and which rules
/// stay in use when a read fails.
pub struct RefreshWorker {
    entries: Vec<RefreshEntry>,
}

impl RefreshWorker {
    /// The entries, one per tag.
    pub closed spec fn entries(&self) -> Seq<RefreshEntry> {
        self.entries@
    }

    /// No tag twice, and every kept rule set well formed.
    pub open spec fn wf(&self) -> bool {
        &&& spec_distinct_entries(self.entries())
        &&& forall|i: int|
            0 <= i < self.entries().len() && (#[trigger] self.entries()[i]).rules is Some
                ==> self.entries()[i].rules->0.wf()
    }

    pub fn new() -> (r: RefreshWorker)
        ensures
            r.entries().len() == 0,
            r.wf(),
    {
        RefreshWorker { entries: Vec::new() }
    }

    /// Where the entry for `tag` is.
    pub fn entry_index(&self, tag: &str) -> (r: Option<usize>)
        ensures
            r matches Some(i) ==> spec_find_entry(self.entries(), tag@, 0) == Some(i as int),
            r is None ==> spec_find_entry(self.entries(), tag@, 0) is None,
    {
        let mut i: usize = 0;
        while i < self.entries.len()
            invariant
                i <= self.entries@.len(),
                spec_find_entry(self.entries(), tag@, 0) == spec_find_entry(
                    self.entries(),
                    tag@,
                    i as int,
                ),
            decreases self.entries@.len() - i,
        {
            if str_equal(self.entries[i].source.tag.as_str(), tag) {
                return Some(i);
            }
            i += 1;
        }
        None
    }

    /// Drops the entries whose tag the configuration no longer names.
    pub fn retain_configured(&mut self, rule_sets: &Vec<RuleSetConfig>)
        requires
            old(self).wf(),
        ensures
            final(self).wf(),
            final(self).entries() == spec_retain(old(self).entries(), rule_sets@),
    {
        let ghost before = self.entries@;
        let mut kept: Vec<RefreshEntry> = Vec::new();
        let mut i: usize = 0;
        while i < self.entries.len()
            invariant
                i <= self.entries@.len(),
                self.entries@ == before,
                kept@ == spec_retain(before.take(i as int), rule_sets@),
            decreases self.entries@.len() - i,
        {
            let mut configured = false;
            let mut j: usize = 0;
            while j < rule_sets.len()
                invariant
                    j <= rule_sets@.len(),
                    i < before.len(),
                    self.entries@ == before,
                    configured <==> exists|m: int|
                        0 <= m < j && (#[trigger] rule_sets@[m]).tag@ == before[i as int].source.tag@,
                decreases rule_sets@.len() - j,
            {
                if str_equal(rule_sets[j].tag.as_str(), self.entries[i].source.tag.as_str()) {
                    configured = true;
                }
                j += 1;
            }
            assert(before.take(i + 1).drop_last() =~= before.take(i as int));
            assert(before.take(i + 1).last() == before[i as int]);
            if configured {
                kept.push(self.entries[i].duplicate());
            }
            i += 1;
        }
        assert(before.take(before.len() as int) =~= before);
        proof {
            lemma_retain_within(before, rule_sets@);
        }
        self.entries = kept;
        proof {
            assert forall|k: int|
                0 <= k < self.entries().len() && (#[trigger] self.entries()[k]).rules is Some
                    implies self.entries()[k].rules->0.wf() by {
                let w = choose|w: int| 0 <= w < before.len() && before[w] == self.entries()[k];
            }
        }
    }

    /// The source needs a read: it is new, changed, or due.
    pub fn needs_refresh(&self, source: &RuleSetConfig, now_ms: u64) -> (r: bool)
        ensures
            r == spec_needs_refresh(self.entries(), *source, now_ms),
    {
        match self.entry_index(source.tag.as_str()) {
            None => true,
            Some(i) => {
                proof {
                    lemma_find_entry(self.entries(), source.tag@, 0);
                }
                let unchanged = self.entries[i].source.same_source(source);
                let due = now_ms >= self.entries[i].refresh_at_ms;
                !(unchanged && !due)
            },
        }
    }

    /// Records a read of `source`: what it loaded (`None` where it failed)
    /// and when to read it again. A failed read keeps the rules loaded before
    /// from the same unchanged source; a new or changed source that failed has
    /// no rules.
    pub fn record(
        &mut self,
        source: RuleSetConfig,
        loaded: Option<Arc<DomainRuleSet>>,
        refresh_at_ms: u64,
    )
        requires
            old(self).wf(),
            loaded matches Some(r) ==> r.wf(),
        ensures
            final(self).wf(),
            final(self).entries() == spec_record(old(self).entries(), source, loaded, refresh_at_ms),
    {
        let ghost before = self.entries@;
        let index = self.entry_index(source.tag.as_str());
        proof {
            lemma_find_entry(before, source.tag@, 0);
        }
        let rules = match loaded {
            Some(rules) => Some(rules),
            None => match index {
                Some(i) => {
                    if self.entries[i].source.same_source(&source) {
                        match &self.entries[i].rules {
                            Some(rules) => Some(share_rules(rules)),
                            None => None,
                        }
                    } else {
                        None
                    }
                },
                None => None,
            },
        };
        let entry = RefreshEntry { source, rules, refresh_at_ms };
        match index {
            Some(i) => {
                self.entries.set(i, entry);
                proof {
                    assert forall|a: int, b: int| 0 <= a < b < self.entries().len() implies (
                    #[trigger] self.entries()[a]).source.tag@ != (
                    #[trigger] self.entries()[b]).source.tag@ by {
                        assert(before[a].source.tag@ != before[b].source.tag@);
                    }
                    assert forall|k: int|
                        0 <= k < self.entries().len() && (#[trigger] self.entries()[k]).rules is Some
                            implies self.entries()[k].rules->0.wf() by {
                        if k != i {
                            assert(self.entries()[k] == before[k]);
                        }
                    }
                }
            },
            None => {
                self.entries.push(entry);
                proof {
                    assert forall|a: int, b: int| 0 <= a < b < self.entries().len() implies (
                    #[trigger] self.entries()[a]).source.tag@ != (
                    #[trigger] self.entries()[b]).source.tag@ by {
                        assert(self.entries()[a] == before[a]);
                        if b < before.len() {
                            assert(self.entries()[b] == before[b]);
                        }
                    }
                    assert forall|k: int|
                        0 <= k < self.entries().len() && (#[trigger] self.entries()[k]).rules is Some
                            implies self.entries()[k].rules->0.wf() by {
                        if k < before.len() {
                            assert(self.entries()[k] == before[k]);
                        }
                    }
                }
            },
        }
    }

    /// The rule sets in use: every entry that has rules, under its tag.
    pub fn active_store(&self) -> (r: RuleSetStore)
        requires
            self.wf(),
        ensures
            r.wf(),
            r.entries() == spec_active(self.entries()),
    {
        let mut store = RuleSetStore::new();
        let mut i: usize = 0;
        assert(spec_active(self.entries().take(0)) =~= Seq::<LoadedRuleSet>::empty());
        while i < self.entries.len()
            invariant
                self.wf(),
                i <= self.entries@.len(),
                store.wf(),
                store.entries() == spec_active(self.entries().take(i as int)),
            decreases self.entries@.len() - i,
        {
            let ghost prefix = self.entries().take(i as int);
            assert(self.entries().take(i + 1).drop_last() =~= prefix);
            assert(self.entries().take(i + 1).last() == self.entries()[i as int]);
            let entry = &self.entries[i];
            match &entry.rules {
                Some(rules) => {
                    let set = LoadedRuleSet {
                        tag: entry.source.tag.clone(),
                        source: entry.source.duplicate(),
                        rules: share_rules(rules),
                    };
                    proof {
                        lemma_active_tags(prefix);
                        lemma_find_loaded(store.entries(), set.tag@, 0);
                        if spec_find_loaded(store.entries(), set.tag@, 0) is Some {
                            let k = spec_find_loaded(store.entries(), set.tag@, 0)->0;
                            assert(store.entries()[k] == spec_active(prefix)[k]);
                            let m = choose|m: int|
                                0 <= m < prefix.len() && (#[trigger] prefix[m]).source.tag@
                                    == spec_active(prefix)[k].tag@;
                            assert(prefix[m] == self.entries()[m]);
                            assert(self.entries()[m].source.tag@ != self.entries()[i as int].source.tag@);
                        }
                        assert(self.entries()[i as int].rules->0.wf());
                    }
                    store.insert(set);
                },
                None => {},
            }
            i += 1;
        }
        assert(self.entries().take(self.entries().len() as int) =~= self.entries());
        store
    }

    /// How long to wait before the next read is due: the earliest refresh
    /// time from now (none before 1 second; 60 seconds with no entries).
    pub fn next_delay_ms(&self, now_ms: u64) -> (r: u64)
        ensures
            r >= 1000,
            self.entries().len() == 0 ==> r == 60_000,
            forall|k: int|
                0 <= k < self.entries().len() ==> r <= if self.entries()[k].refresh_at_ms > now_ms {
                    if self.entries()[k].refresh_at_ms - now_ms > 1000 {
                        self.entries()[k].refresh_at_ms - now_ms
                    } else {
                        1000
                    }
                } else {
                    1000
                },
            self.entries().len() > 0 ==> exists|k: int|
                0 <= k < self.entries().len() && r == if self.entries()[k].refresh_at_ms > now_ms {
                    if self.entries()[k].refresh_at_ms - now_ms > 1000 {
                        self.entries()[k].refresh_at_ms - now_ms
                    } else {
                        1000
                    }
                } else {
                    1000
                },
    {
        let mut best: Option<u64> = None;
        let mut i: usize = 0;
        while i < self.entries.len()
            invariant
                i <= self.entries@.len(),
                i == 0 <==> best is None,
                best matches Some(b) ==> forall|k: int|
                    0 <= k < i ==> b <= if self.entries()[k].refresh_at_ms > now_ms {
                        (self.entries()[k].refresh_at_ms - now_ms) as int
                    } else {
                        0
                    },
                best matches Some(b) ==> exists|k: int|
                    0 <= k < i && b == if self.entries()[k].refresh_at_ms > now_ms {
                        (self.entries()[k].refresh_at_ms - now_ms) as int
                    } else {
                        0
                    },
            decreases self.entries@.len() - i,
        {
            let at = self.entries[i].refresh_at_ms;
            let wait = if at > now_ms {
                at - now_ms
            } else {
                0
            };
            best = match best {
                None => Some(wait),
                Some(b) => if wait < b {
                    Some(wait)
                } else {
                    Some(b)
                },
            };
            i += 1;
        }
        let delay = match best {
            None => 60_000,
            Some(b) => b,
        };
        if delay < 1000 {
            1000
        } else {
            delay
        }
    }
}

/// `done` in front of the strings that a read gives, if it succeeds.
pub open spec fn spec_prepend_strings(
    done: Seq<Seq<char>>,
    r: Result<(Seq<Seq<char>>, int), SrsError>,
) -> Result<(Seq<Seq<char>>, int), SrsError> {
    match r {
        Ok((rest, q)) => Ok((done + rest, q)),
        Err(e) => Err(e),
    }
}

/// 256 to the power `k`.
pub open spec fn spec_byte_power(k: nat) -> nat
    decreases k,
{
    if k == 0 {
        1
    } else {
        256 * spec_byte_power((k - 1) as nat)
    }
}

proof fn lemma_be_value_bound(s: Seq<u8>)
    ensures
        spec_be_value(s) < spec_byte_power(s.len()),
    decreases s.len(),
{
    if s.len() > 0 {
        lemma_be_value_bound(s.drop_last());
        let v = spec_be_value(s.drop_last());
        let m = spec_byte_power((s.len() - 1) as nat);
        assert(v * 256 + s.last() < 256 * m) by (nonlinear_arith)
            requires
                v < m,
                s.last() < 256,
        ;
    }
}

proof fn lemma_byte_power_monotone(a: nat, b: nat)
    requires
        a <= b,
    ensures
        spec_byte_power(a) <= spec_byte_power(b),
    decreases b - a,
{
    if a < b {
        lemma_byte_power_monotone(a, (b - 1) as nat);
    }
}

/// The big-endian value of eight bytes.
pub fn be_u64(bytes: &[u8], start: usize) -> (r: u64)
    requires
        start + 8 <= bytes@.len(),
    ensures
        r == spec_be_value(bytes@.subrange(start as int, start + 8)),
{
    let total = bytes.len();
    let mut value: u64 = 0;
    let mut k: usize = 0;
    while k < 8
        invariant
            k <= 8,
            total == bytes@.len(),
            start + 8 <= bytes@.len(),
            value == spec_be_value(bytes@.subrange(start as int, start + k)),
        decreases 8 - k,
    {
        let ghost prefix = bytes@.subrange(start as int, start + k + 1);
        proof {
            assert(prefix.drop_last() =~= bytes@.subrange(start as int, start + k));
            lemma_be_value_bound(bytes@.subrange(start as int, start + k));
            lemma_byte_power_monotone(k as nat, 7);
            reveal_with_fuel(spec_byte_power, 8);
            assert(value * 256 + 255 <= 0xffff_ffff_ffff_ffff) by (nonlinear_arith)
                requires
                    value < 0x100_0000_0000_0000,
            ;
        }
        let byte = bytes[start + k] as u64;
        let shifted = value * 256;
        value = shifted + byte;
        k += 1;
    }
    value
}

/// Consecutive big-endian 64-bit words of a byte string.
pub fn be_words(bytes: &Vec<u8>) -> (r: Vec<u64>)
    ensures
        r@ == spec_be_words(bytes@),
{
    let total = bytes.len();
    let n = total / 8;
    let mut words: Vec<u64> = Vec::new();
    let mut i: usize = 0;
    while i < n
        invariant
            i <= n,
            total == bytes@.len(),
            n == bytes@.len() / 8,
            words@.len() == i,
            forall|k: int| 0 <= k < i ==> words@[k] == spec_be_words(bytes@)[k],
        decreases n - i,
    {
        assert(8 * i + 8 <= bytes@.len()) by (nonlinear_arith)
            requires
                i < n,
                n == bytes@.len() / 8,
        ;
        let start = 8 * i;
        let w = be_u64(bytes.as_slice(), start);
        words.push(w);
        i += 1;
    }
    assert(words@ =~= spec_be_words(bytes@));
    words
}

} // verus!
