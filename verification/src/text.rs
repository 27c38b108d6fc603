use vstd::prelude::*;
use vstd::string::*;
use vstd::utf8::{decode_utf8, valid_utf8};

verus! {

broadcast use vstd::string::group_string_axioms;

/// The characters of a string slice, in order.
pub fn chars_of(s: &str) -> (v: Vec<char>)
    ensures
        v@ == s@,
{
    let mut v: Vec<char> = Vec::new();
    for c in it: s.chars()
        invariant
            it.seq() == s@,
            v@ == it.seq().take(it.index() as int),
    {
        v.push(c);
    }
    v
}

/// Appends one character to a string (`String::push`).
#[verifier::external_body]
pub fn push_char(s: &mut String, c: char)
    ensures
        final(s)@ == old(s)@.push(c),
{
    s.push(c);
}

/// A string holding exactly the given characters.
pub fn string_from_chars(v: &Vec<char>) -> (s: String)
    ensures
        s@ == v@,
{
    let mut s = String::new();
    let mut i: usize = 0;
    while i < v.len()
        invariant
            i <= v.len(),
            s@ == v@.take(i as int),
        decreases v.len() - i,
    {
        push_char(&mut s, v[i]);
        assert(v@.take(i as int).push(v@[i as int]) =~= v@.take(i + 1));
        i += 1;
    }
    assert(v@.take(v.len() as int) =~= v@);
    s
}


/// Unicode `White_Space` code points, the set that `char::is_whitespace` uses.
pub open spec fn spec_is_whitespace(c: char) -> bool {
    let u = c as u32;
    ||| (9 <= u && u <= 13)
    ||| u == 32
    ||| u == 0x85
    ||| u == 0xA0
    ||| u == 0x1680
    ||| (0x2000 <= u && u <= 0x200A)
    ||| u == 0x2028
    ||| u == 0x2029
    ||| u == 0x202F
    ||| u == 0x205F
    ||| u == 0x3000
}

pub fn is_whitespace(c: char) -> (r: bool)
    ensures
        r == spec_is_whitespace(c),
{
    let u = c as u32;
    (9 <= u && u <= 13) || u == 32 || u == 0x85 || u == 0xA0 || u == 0x1680 || (0x2000 <= u
        && u <= 0x200A) || u == 0x2028 || u == 0x2029 || u == 0x202F || u == 0x205F || u == 0x3000
}

/// `s` without its leading whitespace.
pub open spec fn spec_trim_start(s: Seq<char>) -> Seq<char>
    decreases s.len(),
{
    if s.len() > 0 && spec_is_whitespace(s[0]) {
        spec_trim_start(s.drop_first())
    } else {
        s
    }
}

/// `s` without its trailing whitespace.
pub open spec fn spec_trim_end(s: Seq<char>) -> Seq<char>
    decreases s.len(),
{
    if s.len() > 0 && spec_is_whitespace(s.last()) {
        spec_trim_end(s.drop_last())
    } else {
        s
    }
}

/// `s` without leading and trailing whitespace (`str::trim`).
pub open spec fn spec_trim(s: Seq<char>) -> Seq<char> {
    spec_trim_end(spec_trim_start(s))
}

/// `s` without any trailing `c` (`str::trim_end_matches` with one character).
pub open spec fn spec_trim_end_char(s: Seq<char>, c: char) -> Seq<char>
    decreases s.len(),
{
    if s.len() > 0 && s.last() == c {
        spec_trim_end_char(s.drop_last(), c)
    } else {
        s
    }
}

/// ASCII lower-case of one character; other characters are unchanged.
pub open spec fn spec_ascii_lower(c: char) -> char {
    if 'A' <= c && c <= 'Z' {
        ((c as u32) + 32) as char
    } else {
        c
    }
}

/// ASCII lower-case of a string (`str::to_ascii_lowercase`).
pub open spec fn spec_lower(s: Seq<char>) -> Seq<char> {
    s.map_values(|c: char| spec_ascii_lower(c))
}

/// `needle` occurs in `hay` at position `i`.
pub open spec fn spec_occurs_at(hay: Seq<char>, needle: Seq<char>, i: int) -> bool {
    0 <= i && i + needle.len() <= hay.len() && hay.subrange(i, i + needle.len()) == needle
}

/// `needle` occurs somewhere in `hay` (`str::contains`).
pub open spec fn spec_contains(hay: Seq<char>, needle: Seq<char>) -> bool {
    exists|i: int| spec_occurs_at(hay, needle, i)
}

/// `prefix` begins `s` (`str::starts_with`).
pub open spec fn spec_starts_with(s: Seq<char>, prefix: Seq<char>) -> bool {
    prefix.len() <= s.len() && s.subrange(0, prefix.len() as int) == prefix
}

/// The index of the first `sep` at or after `i`, or the length of `s`.
pub open spec fn spec_next_sep(s: Seq<char>, sep: char, i: int) -> int
    decreases s.len() - i,
{
    if i >= s.len() || i < 0 {
        s.len() as int
    } else if s[i] == sep {
        i
    } else {
        spec_next_sep(s, sep, i + 1)
    }
}

/// `i` starts one of the pieces of `s` split at `sep`.
pub open spec fn spec_piece_start(s: Seq<char>, sep: char, i: int) -> bool {
    0 <= i <= s.len() && (i == 0 || s[i - 1] == sep)
}

/// The piece of `s` that starts at `i` and ends before the next `sep`.
pub open spec fn spec_piece(s: Seq<char>, sep: char, i: int) -> Seq<char> {
    s.subrange(i, spec_next_sep(s, sep, i))
}

/// One of the pieces of `s` split at `sep` (`str::split`) equals `piece`.
pub open spec fn spec_has_piece(s: Seq<char>, sep: char, piece: Seq<char>) -> bool {
    exists|i: int| spec_piece_start(s, sep, i) && spec_piece(s, sep, i) == piece
}

pub proof fn lemma_next_sep(s: Seq<char>, sep: char, i: int)
    requires
        0 <= i <= s.len(),
    ensures
        i <= spec_next_sep(s, sep, i) <= s.len(),
        forall|m: int| i <= m < spec_next_sep(s, sep, i) ==> s[m] != sep,
        spec_next_sep(s, sep, i) < s.len() ==> s[spec_next_sep(s, sep, i)] == sep,
    decreases s.len() - i,
{
    if i < s.len() && s[i] != sep {
        lemma_next_sep(s, sep, i + 1);
    }
}

/// Two character sequences are equal.
pub fn chars_equal(a: &[char], b: &[char]) -> (r: bool)
    ensures
        r == (a@ == b@),
{
    if a.len() != b.len() {
        return false;
    }
    let mut i: usize = 0;
    while i < a.len()
        invariant
            a.len() == b.len(),
            i <= a.len(),
            forall|k: int| 0 <= k < i ==> a@[k] == b@[k],
        decreases a.len() - i,
    {
        if a[i] != b[i] {
            return false;
        }
        i += 1;
    }
    assert(a@ =~= b@);
    true
}

/// Two strings hold the same characters.
pub fn str_equal(a: &str, b: &str) -> (r: bool)
    ensures
        r == (a@ == b@),
{
    let x = chars_of(a);
    let y = chars_of(b);
    chars_equal(x.as_slice(), y.as_slice())
}

/// `str::trim`.
pub fn trim(s: &[char]) -> (r: Vec<char>)
    ensures
        r@ == spec_trim(s@),
{
    let n = s.len();
    let mut start: usize = 0;
    assert(s@.subrange(0, n as int) =~= s@);
    while start < n && is_whitespace(s[start])
        invariant
            n == s.len(),
            start <= n,
            spec_trim_start(s@) == spec_trim_start(s@.subrange(start as int, n as int)),
        decreases n - start,
    {
        assert(s@.subrange(start as int, n as int).drop_first() =~= s@.subrange(
            start + 1,
            n as int,
        ));
        start += 1;
    }
    assert(spec_trim_start(s@.subrange(start as int, n as int)) == s@.subrange(
        start as int,
        n as int,
    ));
    let mut end: usize = n;
    while end > start && is_whitespace(s[end - 1])
        invariant
            n == s.len(),
            start <= end <= n,
            spec_trim(s@) == spec_trim_end(s@.subrange(start as int, end as int)),
        decreases end,
    {
        assert(s@.subrange(start as int, end as int).drop_last() =~= s@.subrange(
            start as int,
            end - 1,
        ));
        end -= 1;
    }
    let mut r: Vec<char> = Vec::new();
    let mut i = start;
    while i < end
        invariant
            start <= i <= end <= n,
            n == s.len(),
            r@ == s@.subrange(start as int, i as int),
        decreases end - i,
    {
        r.push(s[i]);
        assert(s@.subrange(start as int, i as int).push(s@[i as int]) =~= s@.subrange(
            start as int,
            i + 1,
        ));
        i += 1;
    }
    r
}

/// `str::trim` on a string slice.
pub fn trim_str(s: &str) -> (r: Vec<char>)
    ensures
        r@ == spec_trim(s@),
{
    let v = chars_of(s);
    trim(v.as_slice())
}

/// ASCII lower-case of one character.
pub fn ascii_lower(c: char) -> (r: char)
    ensures
        r == spec_ascii_lower(c),
{
    if 'A' <= c && c <= 'Z' {
        let u = (c as u32) + 32;
        assert(u <= 0x7a);
        char_from_ascii(u)
    } else {
        c
    }
}

fn char_from_ascii(u: u32) -> (c: char)
    requires
        u < 128,
    ensures
        c as u32 == u,
{
    let b = u as u8;
    b as char
}

/// `to_ascii_lowercase`.
pub fn lower(s: &[char]) -> (r: Vec<char>)
    ensures
        r@ == spec_lower(s@),
{
    let mut r: Vec<char> = Vec::new();
    let mut i: usize = 0;
    while i < s.len()
        invariant
            i <= s.len(),
            r@ == spec_lower(s@.take(i as int)),
        decreases s.len() - i,
    {
        r.push(ascii_lower(s[i]));
        assert(spec_lower(s@.take(i + 1)) =~= spec_lower(s@.take(i as int)).push(
            spec_ascii_lower(s@[i as int]),
        ));
        i += 1;
    }
    assert(s@.take(s.len() as int) =~= s@);
    r
}

/// `trim_end_matches(c)`.
pub fn trim_end_char(s: &[char], c: char) -> (r: Vec<char>)
    ensures
        r@ == spec_trim_end_char(s@, c),
{
    let mut end = s.len();
    assert(s@.take(end as int) =~= s@);
    while end > 0 && s[end - 1] == c
        invariant
            end <= s.len(),
            spec_trim_end_char(s@, c) == spec_trim_end_char(s@.take(end as int), c),
        decreases end,
    {
        assert(s@.take(end as int).drop_last() =~= s@.take(end - 1));
        end -= 1;
    }
    let mut r: Vec<char> = Vec::new();
    let mut i: usize = 0;
    while i < end
        invariant
            i <= end <= s.len(),
            r@ == s@.take(i as int),
        decreases end - i,
    {
        r.push(s[i]);
        assert(s@.take(i as int).push(s@[i as int]) =~= s@.take(i + 1));
        i += 1;
    }
    r
}

/// `needle` occurs at position `i` of `hay`.
pub fn occurs_at(hay: &[char], needle: &[char], i: usize) -> (r: bool)
    ensures
        r == spec_occurs_at(hay@, needle@, i as int),
{
    if i > hay.len() || needle.len() > hay.len() - i {
        return false;
    }
    let mut k: usize = 0;
    while k < needle.len()
        invariant
            i + needle.len() <= hay.len(),
            k <= needle.len(),
            forall|m: int| 0 <= m < k ==> hay@[i + m] == needle@[m],
        decreases needle.len() - k,
    {
        if hay[i + k] != needle[k] {
            assert(hay@.subrange(i as int, i + needle.len())[k as int] != needle@[k as int]);
            return false;
        }
        k += 1;
    }
    assert(hay@.subrange(i as int, i + needle.len()) =~= needle@);
    true
}

/// `str::contains` with a string pattern.
pub fn contains(hay: &[char], needle: &[char]) -> (r: bool)
    ensures
        r == spec_contains(hay@, needle@),
{
    if needle.len() > hay.len() {
        return false;
    }
    let last = hay.len() - needle.len();
    let mut i: usize = 0;
    loop
        invariant
            last == hay.len() - needle.len(),
            i <= last,
            forall|m: int| 0 <= m < i ==> !spec_occurs_at(hay@, needle@, m),
        decreases last - i,
    {
        if occurs_at(hay, needle, i) {
            return true;
        }
        if i == last {
            return false;
        }
        i += 1;
    }
}

/// `str::starts_with` with a string pattern.
pub fn starts_with(s: &[char], prefix: &[char]) -> (r: bool)
    ensures
        r == spec_starts_with(s@, prefix@),
{
    occurs_at(s, prefix, 0)
}

/// One character occurs in `s`.
pub fn has_char(s: &[char], c: char) -> (r: bool)
    ensures
        r == s@.contains(c),
{
    let mut i: usize = 0;
    while i < s.len()
        invariant
            i <= s.len(),
            forall|m: int| 0 <= m < i ==> s@[m] != c,
        decreases s.len() - i,
    {
        if s[i] == c {
            return true;
        }
        i += 1;
    }
    false
}

/// One of the pieces of `s` split at `sep` equals `piece`.
pub fn has_piece(s: &[char], sep: char, piece: &[char]) -> (r: bool)
    ensures
        r == spec_has_piece(s@, sep, piece@),
{
    let n = s.len();
    let mut i: usize = 0;
    loop
        invariant
            n == s.len(),
            i <= n,
            spec_piece_start(s@, sep, i as int),
            forall|t: int|
                0 <= t < i && spec_piece_start(s@, sep, t) ==> spec_piece(s@, sep, t) != piece@,
        decreases n - i,
    {
        let mut j = i;
        while j < n && s[j] != sep
            invariant
                i <= j <= n,
                n == s.len(),
                forall|m: int| i <= m < j ==> s@[m] != sep,
                spec_next_sep(s@, sep, i as int) == spec_next_sep(s@, sep, j as int),
            decreases n - j,
        {
            j += 1;
        }
        proof {
            lemma_next_sep(s@, sep, i as int);
        }
        assert(spec_next_sep(s@, sep, i as int) == j);
        let mut same = j - i == piece.len();
        let mut k: usize = 0;
        while same && k < piece.len()
            invariant
                same ==> j - i == piece.len(),
                i + k <= j <= n,
                n == s.len(),
                same ==> forall|m: int| 0 <= m < k ==> s@[i + m] == piece@[m],
                !same ==> spec_piece(s@, sep, i as int) != piece@,
                spec_next_sep(s@, sep, i as int) == j,
            decreases piece.len() - k + (if same { 1int } else { 0int }),
        {
            if s[i + k] != piece[k] {
                same = false;
                assert(spec_piece(s@, sep, i as int)[k as int] != piece@[k as int]);
            } else {
                k += 1;
            }
        }
        if same {
            assert(spec_piece(s@, sep, i as int) =~= piece@);
            return true;
        }
        assert forall|t: int|
            0 <= t < j + 1 && spec_piece_start(s@, sep, t) implies spec_piece(s@, sep, t)
            != piece@ by {
            if t > i && t <= j {
                assert(s@[t - 1] != sep);
            }
        }
        if j == n {
            assert forall|t: int| spec_piece_start(s@, sep, t) implies spec_piece(s@, sep, t)
                != piece@ by {
                if t > j {
                } else if t > i {
                    assert(s@[t - 1] != sep);
                }
            }
            return false;
        }
        i = j + 1;
    }
}


/// What `String::from_utf8_lossy` gives for bytes.
pub uninterp spec fn spec_utf8_lossy(bytes: Seq<u8>) -> Seq<char>;

/// Decodes bytes with `String::from_utf8_lossy`. Its documentation says that
/// valid UTF-8 decodes unchanged; invalid sequences become U+FFFD, which the
/// contract does not spell out beyond naming the result.
#[verifier::external_body]
pub fn utf8_lossy(bytes: &[u8]) -> (r: String)
    ensures
        r@ == spec_utf8_lossy(bytes@),
        valid_utf8(bytes@) ==> r@ == decode_utf8(bytes@),
{
    String::from_utf8_lossy(bytes).into_owned()
}

/// Decodes bytes with `String::from_utf8`, which accepts exactly valid UTF-8.
#[verifier::external_body]
pub fn utf8_decode(bytes: Vec<u8>) -> (r: Option<String>)
    ensures
        r is Some <==> valid_utf8(bytes@),
        r matches Some(s) ==> s@ == decode_utf8(bytes@),
{
    String::from_utf8(bytes).ok()
}

/// Some piece of `s` split at `sep`, trimmed of whitespace, equals `target`.
/// For a non-empty target this is the same as some line of `str::lines`,
/// trimmed, equalling it: a trailing carriage return is whitespace, and the
/// empty piece after a final newline can never equal a non-empty target.
pub open spec fn spec_has_trimmed_piece(s: Seq<char>, sep: char, target: Seq<char>) -> bool {
    exists|i: int| spec_piece_start(s, sep, i) && spec_trim(spec_piece(s, sep, i)) == target
}

/// The piece of `s` that starts at `i` (which starts a piece).
pub fn piece_end(s: &[char], sep: char, i: usize) -> (j: usize)
    requires
        i <= s@.len(),
    ensures
        j == spec_next_sep(s@, sep, i as int),
        i <= j <= s@.len(),
        forall|m: int| i <= m < j ==> s@[m] != sep,
        j < s@.len() ==> s@[j as int] == sep,
{
    proof {
        lemma_next_sep(s@, sep, i as int);
    }
    let mut j = i;
    while j < s.len() && s[j] != sep
        invariant
            i <= j <= s@.len(),
            spec_next_sep(s@, sep, i as int) == spec_next_sep(s@, sep, j as int),
        decreases s@.len() - j,
    {
        j += 1;
    }
    j
}

/// The characters `s[from..to]`.
pub fn slice_chars(s: &[char], from: usize, to: usize) -> (r: Vec<char>)
    requires
        from <= to <= s@.len(),
    ensures
        r@ == s@.subrange(from as int, to as int),
{
    let mut r: Vec<char> = Vec::new();
    let mut i = from;
    while i < to
        invariant
            from <= i <= to <= s@.len(),
            r@ == s@.subrange(from as int, i as int),
        decreases to - i,
    {
        r.push(s[i]);
        assert(s@.subrange(from as int, i as int).push(s@[i as int]) =~= s@.subrange(
            from as int,
            i + 1,
        ));
        i += 1;
    }
    r
}

/// Some piece of `s` split at `sep`, trimmed, equals `target`.
pub fn has_trimmed_piece(s: &[char], sep: char, target: &[char]) -> (r: bool)
    ensures
        r == spec_has_trimmed_piece(s@, sep, target@),
{
    let n = s.len();
    let mut i: usize = 0;
    loop
        invariant
            n == s@.len(),
            i <= n,
            spec_piece_start(s@, sep, i as int),
            forall|t: int|
                0 <= t < i && spec_piece_start(s@, sep, t) ==> spec_trim(spec_piece(s@, sep, t))
                    != target@,
        decreases n - i,
    {
        let j = piece_end(s, sep, i);
        let piece = slice_chars(s, i, j);
        let trimmed = trim(piece.as_slice());
        if chars_equal(trimmed.as_slice(), target) {
            return true;
        }
        assert forall|t: int|
            0 <= t < j + 1 && spec_piece_start(s@, sep, t) implies spec_trim(
                spec_piece(s@, sep, t),
            ) != target@ by {
            if t > i && t <= j {
                assert(s@[t - 1] != sep);
            }
        }
        if j == n {
            assert forall|t: int| spec_piece_start(s@, sep, t) implies spec_trim(
                spec_piece(s@, sep, t),
            ) != target@ by {
                if t > i && t <= j {
                    assert(s@[t - 1] != sep);
                }
            }
            return false;
        }
        i = j + 1;
    }
}

/// An ASCII decimal digit.
pub open spec fn spec_is_digit(c: char) -> bool {
    '0' <= c && c <= '9'
}

/// The value of a string of decimal digits.
pub open spec fn spec_decimal_value(s: Seq<char>) -> nat
    decreases s.len(),
{
    if s.len() == 0 {
        0
    } else {
        spec_decimal_value(s.drop_last()) * 10 + ((s.last() as u32) - ('0' as u32)) as nat
    }
}

/// Every character is an ASCII decimal digit.
pub open spec fn spec_all_digits(s: Seq<char>) -> bool {
    forall|i: int| 0 <= i < s.len() ==> spec_is_digit(s[i])
}

/// The digits of an unsigned integer as `str::parse` reads them: an optional
/// leading `+`, then at least one ASCII digit and nothing else.
pub open spec fn spec_unsigned_digits(s: Seq<char>) -> Option<Seq<char>> {
    let digits = if s.len() > 0 && s[0] == '+' {
        s.drop_first()
    } else {
        s
    };
    if digits.len() > 0 && spec_all_digits(digits) {
        Some(digits)
    } else {
        None
    }
}

/// `str::parse` of an unsigned integer no larger than `max`.
pub open spec fn spec_parse_unsigned(s: Seq<char>, max: nat) -> Option<nat> {
    match spec_unsigned_digits(s) {
        Some(digits) => if spec_decimal_value(digits) <= max {
            Some(spec_decimal_value(digits))
        } else {
            None
        },
        None => None,
    }
}

/// `str::parse::<u64>` (and narrower types through `max`).
pub fn parse_unsigned(s: &[char], max: u64) -> (r: Option<u64>)
    ensures
        match spec_parse_unsigned(s@, max as nat) {
            Some(v) => r == Some(v as u64),
            None => r is None,
        },
{
    let start: usize = if s.len() > 0 && s[0] == '+' {
        1
    } else {
        0
    };
    let ghost digits = if s@.len() > 0 && s@[0] == '+' {
        s@.drop_first()
    } else {
        s@
    };
    assert(digits =~= s@.subrange(start as int, s@.len() as int));
    if start >= s.len() {
        return None;
    }
    let mut value: u64 = 0;
    let mut i = start;
    while i < s.len()
        invariant
            start < s@.len(),
            start <= i <= s@.len(),
            digits =~= s@.subrange(start as int, s@.len() as int),
            digits == (if s@.len() > 0 && s@[0] == '+' {
                s@.drop_first()
            } else {
                s@
            }),
            forall|m: int| start <= m < i ==> spec_is_digit(s@[m]),
            value == spec_decimal_value(s@.subrange(start as int, i as int)),
            value <= max,
        decreases s@.len() - i,
    {
        let c = s[i];
        if !('0' <= c && c <= '9') {
            assert(digits[(i - start) as int] == c);
            assert(!spec_is_digit(digits[(i - start) as int]));
            assert(!spec_all_digits(digits));
            return None;
        }
        let d = (c as u32 - '0' as u32) as u64;
        assert(s@.subrange(start as int, i + 1).drop_last() =~= s@.subrange(
            start as int,
            i as int,
        ));
        if d > max || value > (max - d) / 10 {
            proof {
                assert(spec_decimal_value(s@.subrange(start as int, i + 1)) > max) by (nonlinear_arith)
                    requires
                        spec_decimal_value(s@.subrange(start as int, i + 1)) == value * 10 + d,
                        d > max || value > (max - d) / 10,
                {
                }
                if spec_all_digits(digits) {
                    lemma_decimal_prefix_monotone(digits, (i + 1 - start) as int);
                    assert(s@.subrange(start as int, i + 1) =~= digits.take(i + 1 - start));
                }
            }
            return None;
        }
        value = value * 10 + d;
        i += 1;
    }
    assert(s@.subrange(start as int, s@.len() as int) =~= digits);
    Some(value)
}

/// A longer digit prefix has at least the value of a shorter one.
pub proof fn lemma_decimal_prefix_monotone(digits: Seq<char>, k: int)
    requires
        0 <= k <= digits.len(),
        forall|i: int| 0 <= i < digits.len() ==> spec_is_digit(digits[i]),
    ensures
        spec_decimal_value(digits.take(k)) <= spec_decimal_value(digits),
    decreases digits.len() - k,
{
    if k < digits.len() {
        lemma_decimal_prefix_monotone(digits, k + 1);
        assert(digits.take(k + 1).drop_last() =~= digits.take(k));
    }
    assert(digits.take(digits.len() as int) =~= digits);
}


/// ASCII whitespace as `u8::is_ascii_whitespace` defines it.
pub open spec fn spec_is_ascii_ws(c: char) -> bool {
    c == ' ' || c == '\t' || c == '\n' || c == '\x0C' || c == '\r'
}

pub fn is_ascii_ws(c: char) -> (r: bool)
    ensures
        r == spec_is_ascii_ws(c),
{
    c == ' ' || c == '\t' || c == '\n' || c == '\x0C' || c == '\r'
}

/// `s` without leading ASCII whitespace.
pub open spec fn spec_skip_ascii_ws(s: Seq<char>) -> Seq<char>
    decreases s.len(),
{
    if s.len() > 0 && spec_is_ascii_ws(s[0]) {
        spec_skip_ascii_ws(s.drop_first())
    } else {
        s
    }
}

/// The leading run of non-whitespace characters of `s`.
pub open spec fn spec_token(s: Seq<char>) -> Seq<char>
    decreases s.len(),
{
    if s.len() > 0 && !spec_is_ascii_ws(s[0]) {
        seq![s[0]] + spec_token(s.drop_first())
    } else {
        Seq::empty()
    }
}

/// `s` after its leading run of non-whitespace characters.
pub open spec fn spec_after_token(s: Seq<char>) -> Seq<char>
    decreases s.len(),
{
    if s.len() > 0 && !spec_is_ascii_ws(s[0]) {
        spec_after_token(s.drop_first())
    } else {
        s
    }
}

/// The second field of `s` split at ASCII whitespace
/// (`split_ascii_whitespace().nth(1)`).
pub open spec fn spec_second_field(s: Seq<char>) -> Option<Seq<char>> {
    let first = spec_token(spec_skip_ascii_ws(s));
    let rest = spec_skip_ascii_ws(spec_after_token(spec_skip_ascii_ws(s)));
    let second = spec_token(rest);
    if first.len() == 0 || second.len() == 0 {
        None
    } else {
        Some(second)
    }
}

fn skip_ascii_ws_from(s: &[char], i: usize) -> (j: usize)
    requires
        i <= s@.len(),
    ensures
        i <= j <= s@.len(),
        spec_skip_ascii_ws(s@.subrange(i as int, s@.len() as int)) == s@.subrange(
            j as int,
            s@.len() as int,
        ),
{
    let mut j = i;
    while j < s.len() && is_ascii_ws(s[j])
        invariant
            i <= j <= s@.len(),
            spec_skip_ascii_ws(s@.subrange(i as int, s@.len() as int)) == spec_skip_ascii_ws(
                s@.subrange(j as int, s@.len() as int),
            ),
        decreases s@.len() - j,
    {
        assert(s@.subrange(j as int, s@.len() as int).drop_first() =~= s@.subrange(
            j + 1,
            s@.len() as int,
        ));
        j += 1;
    }
    j
}

fn token_end_from(s: &[char], i: usize) -> (j: usize)
    requires
        i <= s@.len(),
    ensures
        i <= j <= s@.len(),
        spec_token(s@.subrange(i as int, s@.len() as int)) == s@.subrange(i as int, j as int),
        spec_after_token(s@.subrange(i as int, s@.len() as int)) == s@.subrange(
            j as int,
            s@.len() as int,
        ),
    decreases s@.len() - i,
{
    if i < s.len() && !is_ascii_ws(s[i]) {
        let j = token_end_from(s, i + 1);
        assert(s@.subrange(i as int, s@.len() as int).drop_first() =~= s@.subrange(
            i + 1,
            s@.len() as int,
        ));
        assert(seq![s@[i as int]] + s@.subrange(i + 1, j as int) =~= s@.subrange(
            i as int,
            j as int,
        ));
        j
    } else {
        assert(s@.subrange(i as int, i as int) =~= Seq::<char>::empty());
        i
    }
}

/// `split_ascii_whitespace().nth(1)`.
pub fn second_field(s: &[char]) -> (r: Option<Vec<char>>)
    ensures
        match spec_second_field(s@) {
            Some(f) => r matches Some(v) && v@ == f,
            None => r is None,
        },
{
    assert(s@.subrange(0, s@.len() as int) =~= s@);
    let a = skip_ascii_ws_from(s, 0);
    let b = token_end_from(s, a);
    let c = skip_ascii_ws_from(s, b);
    let d = token_end_from(s, c);
    if b == a || d == c {
        return None;
    }
    Some(slice_chars(s, c, d))
}


/// The leading run of characters of `s` that are not Unicode whitespace.
pub open spec fn spec_word(s: Seq<char>) -> Seq<char>
    decreases s.len(),
{
    if s.len() > 0 && !spec_is_whitespace(s[0]) {
        seq![s[0]] + spec_word(s.drop_first())
    } else {
        Seq::empty()
    }
}

pub proof fn lemma_trim_start_len(s: Seq<char>)
    ensures
        spec_trim_start(s).len() <= s.len(),
        spec_trim_start(s).len() > 0 ==> !spec_is_whitespace(spec_trim_start(s)[0]),
    decreases s.len(),
{
    if s.len() > 0 && spec_is_whitespace(s[0]) {
        lemma_trim_start_len(s.drop_first());
    }
}

pub proof fn lemma_word_len(s: Seq<char>)
    ensures
        spec_word(s).len() <= s.len(),
        s.len() > 0 && !spec_is_whitespace(s[0]) ==> spec_word(s).len() >= 1,
    decreases s.len(),
{
    if s.len() > 0 && !spec_is_whitespace(s[0]) {
        lemma_word_len(s.drop_first());
    }
}

/// The fields of `s` split at Unicode whitespace (`str::split_whitespace`).
pub open spec fn spec_fields(s: Seq<char>) -> Seq<Seq<char>>
    decreases s.len(),
{
    let t = spec_trim_start(s);
    if t.len() == 0 {
        Seq::empty()
    } else {
        let w = spec_word(t);
        proof {
            lemma_trim_start_len(s);
            lemma_word_len(t);
        }
        seq![w] + spec_fields(t.subrange(w.len() as int, t.len() as int))
    }
}

fn skip_ws_from(s: &[char], i: usize) -> (j: usize)
    requires
        i <= s@.len(),
    ensures
        i <= j <= s@.len(),
        spec_trim_start(s@.subrange(i as int, s@.len() as int)) == s@.subrange(
            j as int,
            s@.len() as int,
        ),
{
    let mut j = i;
    while j < s.len() && is_whitespace(s[j])
        invariant
            i <= j <= s@.len(),
            spec_trim_start(s@.subrange(i as int, s@.len() as int)) == spec_trim_start(
                s@.subrange(j as int, s@.len() as int),
            ),
        decreases s@.len() - j,
    {
        assert(s@.subrange(j as int, s@.len() as int).drop_first() =~= s@.subrange(
            j + 1,
            s@.len() as int,
        ));
        j += 1;
    }
    j
}

fn word_end_from(s: &[char], i: usize) -> (j: usize)
    requires
        i <= s@.len(),
    ensures
        i <= j <= s@.len(),
        spec_word(s@.subrange(i as int, s@.len() as int)) == s@.subrange(i as int, j as int),
    decreases s@.len() - i,
{
    if i < s.len() && !is_whitespace(s[i]) {
        let j = word_end_from(s, i + 1);
        assert(s@.subrange(i as int, s@.len() as int).drop_first() =~= s@.subrange(
            i + 1,
            s@.len() as int,
        ));
        assert(seq![s@[i as int]] + s@.subrange(i + 1, j as int) =~= s@.subrange(
            i as int,
            j as int,
        ));
        j
    } else {
        assert(s@.subrange(i as int, i as int) =~= Seq::<char>::empty());
        i
    }
}

/// The characters of each list of characters.
pub open spec fn spec_char_lists(v: Seq<Vec<char>>) -> Seq<Seq<char>> {
    v.map_values(|x: Vec<char>| x@)
}

/// `str::split_whitespace`.
pub fn fields(s: &[char]) -> (r: Vec<Vec<char>>)
    ensures
        spec_char_lists(r@) == spec_fields(s@),
{
    let n = s.len();
    let mut out: Vec<Vec<char>> = Vec::new();
    let mut i: usize = 0;
    assert(s@.subrange(0, n as int) =~= s@);
    assert(spec_char_lists(out@) =~= Seq::<Seq<char>>::empty());
    loop
        invariant
            n == s@.len(),
            i <= n,
            spec_fields(s@) == spec_char_lists(out@) + spec_fields(s@.subrange(i as int, n as int)),
        decreases n - i,
    {
        let j = skip_ws_from(s, i);
        if j == n {
            assert(spec_fields(s@.subrange(i as int, n as int)) =~= Seq::<Seq<char>>::empty()) by {
                assert(s@.subrange(j as int, n as int) =~= Seq::<char>::empty());
            }
            assert(spec_char_lists(out@) + Seq::<Seq<char>>::empty() =~= spec_char_lists(out@));
            return out;
        }
        let k = word_end_from(s, j);
        proof {
            let rest = s@.subrange(i as int, n as int);
            let t = s@.subrange(j as int, n as int);
            lemma_trim_start_len(rest);
            lemma_word_len(t);
            assert(t.subrange(spec_word(t).len() as int, t.len() as int) =~= s@.subrange(
                k as int,
                n as int,
            ));
        }
        let word = slice_chars(s, j, k);
        let ghost before = spec_char_lists(out@);
        out.push(word);
        proof {
            assert(spec_char_lists(out@) =~= before.push(word@));
            assert(before + (seq![word@] + spec_fields(s@.subrange(k as int, n as int))) =~= before.push(
                word@,
            ) + spec_fields(s@.subrange(k as int, n as int)));
        }
        i = k;
    }
}


/// The pieces of `s` from `i` on, split at `sep` (`str::split`).
pub open spec fn spec_pieces_from(s: Seq<char>, sep: char, i: int) -> Seq<Seq<char>>
    decreases s.len() + 1 - i,
{
    if i < 0 || i > s.len() {
        Seq::empty()
    } else {
        let j = spec_next_sep(s, sep, i);
        proof {
            lemma_next_sep(s, sep, i);
        }
        if j < s.len() {
            seq![s.subrange(i, j)] + spec_pieces_from(s, sep, j + 1)
        } else {
            seq![s.subrange(i, j)]
        }
    }
}

/// The pieces of `s` split at `sep` (`str::split`). Split at `\n` and each
/// trimmed, they are the trimmed lines of `str::lines` with, at most, one
/// empty piece more at the end (a trailing carriage return is whitespace).
pub open spec fn spec_pieces(s: Seq<char>, sep: char) -> Seq<Seq<char>> {
    spec_pieces_from(s, sep, 0)
}

/// `str::split` at one character.
pub fn pieces(s: &[char], sep: char) -> (r: Vec<Vec<char>>)
    ensures
        spec_char_lists(r@) == spec_pieces(s@, sep),
{
    let n = s.len();
    let mut out: Vec<Vec<char>> = Vec::new();
    let mut i: usize = 0;
    assert(spec_char_lists(out@) =~= Seq::<Seq<char>>::empty());
    loop
        invariant
            n == s@.len(),
            i <= n,
            spec_pieces(s@, sep) == spec_char_lists(out@) + spec_pieces_from(s@, sep, i as int),
        decreases n - i,
    {
        let j = piece_end(s, sep, i);
        let piece = slice_chars(s, i, j);
        let ghost before = spec_char_lists(out@);
        out.push(piece);
        assert(spec_char_lists(out@) =~= before.push(piece@));
        if j == n {
            assert(before + seq![piece@] =~= before.push(piece@));
            return out;
        }
        assert(before + (seq![piece@] + spec_pieces_from(s@, sep, j + 1)) =~= before.push(piece@)
            + spec_pieces_from(s@, sep, j + 1));
        i = j + 1;
    }
}


/// `s` with every `c` replaced by `rep` (`str::replace` with one character).
pub open spec fn spec_replace_char(s: Seq<char>, c: char, rep: Seq<char>) -> Seq<char>
    decreases s.len(),
{
    if s.len() == 0 {
        Seq::empty()
    } else {
        spec_replace_char(s.drop_last(), c, rep) + if s.last() == c {
            rep
        } else {
            seq![s.last()]
        }
    }
}

/// Appends characters.
pub fn extend_chars(out: &mut Vec<char>, more: &[char])
    ensures
        final(out)@ == old(out)@ + more@,
{
    let mut i: usize = 0;
    while i < more.len()
        invariant
            i <= more@.len(),
            out@ == old(out)@ + more@.take(i as int),
        decreases more@.len() - i,
    {
        out.push(more[i]);
        assert(old(out)@ + more@.take(i + 1) =~= (old(out)@ + more@.take(i as int)).push(
            more@[i as int],
        ));
        i += 1;
    }
    assert(more@.take(more@.len() as int) =~= more@);
}

/// `str::replace` with one character.
pub fn replace_char(s: &[char], c: char, rep: &[char]) -> (r: Vec<char>)
    ensures
        r@ == spec_replace_char(s@, c, rep@),
{
    let mut out: Vec<char> = Vec::new();
    let mut i: usize = 0;
    while i < s.len()
        invariant
            i <= s@.len(),
            out@ == spec_replace_char(s@.take(i as int), c, rep@),
        decreases s@.len() - i,
    {
        assert(s@.take(i + 1).drop_last() =~= s@.take(i as int));
        assert(s@.take(i + 1).last() == s@[i as int]);
        if s[i] == c {
            extend_chars(&mut out, rep);
        } else {
            let ghost before = out@;
            out.push(s[i]);
            assert(out@ =~= before + seq![s@[i as int]]);
        }
        i += 1;
    }
    assert(s@.take(s@.len() as int) =~= s@);
    out
}

/// The parts joined with `sep` between them (`slice::join`).
pub open spec fn spec_join(parts: Seq<Seq<char>>, sep: Seq<char>) -> Seq<char>
    decreases parts.len(),
{
    if parts.len() == 0 {
        Seq::empty()
    } else if parts.len() == 1 {
        parts[0]
    } else {
        spec_join(parts.drop_last(), sep) + sep + parts.last()
    }
}

/// `slice::join` of character lists.
pub fn join_chars(parts: &Vec<Vec<char>>, sep: &[char]) -> (r: Vec<char>)
    ensures
        r@ == spec_join(spec_char_lists(parts@), sep@),
{
    let ghost pv = spec_char_lists(parts@);
    let mut out: Vec<char> = Vec::new();
    let mut i: usize = 0;
    while i < parts.len()
        invariant
            i <= parts@.len(),
            pv == spec_char_lists(parts@),
            out@ == spec_join(pv.take(i as int), sep@),
        decreases parts@.len() - i,
    {
        assert(pv.take(i + 1).drop_last() =~= pv.take(i as int));
        assert(pv.take(i + 1).last() == parts@[i as int]@);
        if i > 0 {
            extend_chars(&mut out, sep);
        } else {
            assert(pv.take(1)[0] == parts@[0]@);
        }
        extend_chars(&mut out, parts[i].as_slice());
        if i == 0 {
            assert(out@ =~= pv.take(1)[0]);
        }
        i += 1;
    }
    assert(pv.take(pv.len() as int) =~= pv);
    out
}

/// The first position, from `i` on, where `needle` occurs in `hay`.
pub open spec fn spec_find_from(hay: Seq<char>, needle: Seq<char>, i: int) -> Option<int>
    decreases hay.len() + 1 - i,
{
    if i < 0 || i > hay.len() {
        None
    } else if spec_occurs_at(hay, needle, i) {
        Some(i)
    } else {
        spec_find_from(hay, needle, i + 1)
    }
}

/// Where `needle` first occurs in `hay` from `from` on.
pub fn find_from(hay: &[char], needle: &[char], from: usize) -> (r: Option<usize>)
    ensures
        match r {
            Some(i) => spec_find_from(hay@, needle@, from as int) == Some(i as int)
                && spec_occurs_at(hay@, needle@, i as int),
            None => spec_find_from(hay@, needle@, from as int) is None,
        },
{
    if from > hay.len() {
        return None;
    }
    let mut i = from;
    while i <= hay.len()
        invariant
            from <= i <= hay@.len() + 1,
            i <= usize::MAX,
            spec_find_from(hay@, needle@, from as int) == spec_find_from(hay@, needle@, i as int),
        decreases hay@.len() + 1 - i,
    {
        if occurs_at(hay, needle, i) {
            return Some(i);
        }
        if i == hay.len() {
            assert(spec_find_from(hay@, needle@, i + 1) is None);
            return None;
        }
        i += 1;
    }
    None
}


/// The decimal digit of a value below ten.
pub open spec fn spec_digit_char(d: nat) -> char {
    ((d + 48) as u32) as char
}

/// The decimal numeral of `n`, without leading zeros (`u64::to_string`).
pub open spec fn spec_decimal(n: nat) -> Seq<char>
    decreases n,
{
    if n < 10 {
        seq![spec_digit_char(n)]
    } else {
        spec_decimal(n / 10) + seq![spec_digit_char(n % 10)]
    }
}

/// The decimal numeral of `n`.
pub fn decimal_chars(n: u64) -> (r: Vec<char>)
    ensures
        r@ == spec_decimal(n as nat),
    decreases n,
{
    if n < 10 {
        let mut v: Vec<char> = Vec::new();
        v.push(char_from_digit(n as u32));
        v
    } else {
        let mut v = decimal_chars(n / 10);
        v.push(char_from_digit((n % 10) as u32));
        v
    }
}

fn char_from_digit(d: u32) -> (c: char)
    requires
        d < 10,
    ensures
        c == spec_digit_char(d as nat),
{
    if d == 0 {
        '0'
    } else if d == 1 {
        '1'
    } else if d == 2 {
        '2'
    } else if d == 3 {
        '3'
    } else if d == 4 {
        '4'
    } else if d == 5 {
        '5'
    } else if d == 6 {
        '6'
    } else if d == 7 {
        '7'
    } else if d == 8 {
        '8'
    } else {
        '9'
    }
}

} // verus!
