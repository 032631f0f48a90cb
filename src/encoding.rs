//! Character set detection, segment encoding, and the choice of version and level.

use vstd::prelude::*;
use vstd::string::StringSliceAdditionalSpecFns;
use crate::buffer::{
    bits_of_byte, bits_of_bytes, lemma_bits_of_bytes_push, number_bit, number_bits, Buffer,
    BUFFER_BITS,
};
use crate::error::QrError;
use crate::error_correction::{level_rank, spec_increment, ErrorCorrectionLevel};
use crate::qr_version::{lemma_codeword_counts, spec_cci_bits, spec_data_codewords, Version};

verus! {

/// The largest version a payload may use, or the one version it must use.
#[derive(Clone, Copy, Debug, PartialEq, Eq, Structural, PartialOrd, Ord)]
pub enum VersionRestriction {
    MaxVersion(Version),
    SpecificVersion(Version),
}

impl VersionRestriction {
    pub open spec fn spec_version(self) -> Version {
        match self {
            VersionRestriction::MaxVersion(v) => v,
            VersionRestriction::SpecificVersion(v) => v,
        }
    }

    /// The version named by the restriction: its upper bound.
    pub fn to_version(self) -> (r: Version)
        ensures
            r == self.spec_version(),
    {
        match self {
            VersionRestriction::MaxVersion(version) => version,
            VersionRestriction::SpecificVersion(version) => version,
        }
    }
}

/// The weakest error correction a payload may use, or the one level it must use.
#[derive(Clone, Copy, Debug, PartialEq, Eq, Structural, PartialOrd, Ord)]
pub enum ErrorCorrectionRestriction {
    MinErrorCorrection(ErrorCorrectionLevel),
    SpecificErrorCorrection(ErrorCorrectionLevel),
}

impl ErrorCorrectionRestriction {
    pub open spec fn spec_level(self) -> ErrorCorrectionLevel {
        match self {
            ErrorCorrectionRestriction::MinErrorCorrection(e) => e,
            ErrorCorrectionRestriction::SpecificErrorCorrection(e) => e,
        }
    }

    /// The level named by the restriction: its lower bound.
    pub fn to_error_correction(self) -> (r: ErrorCorrectionLevel)
        ensures
            r == self.spec_level(),
    {
        match self {
            ErrorCorrectionRestriction::MinErrorCorrection(error_correction) => error_correction,
            ErrorCorrectionRestriction::SpecificErrorCorrection(error_correction) => {
                error_correction
            },
        }
    }
}

/// The mode of a segment as written in its mode indicator.
#[derive(Clone, Copy, Debug, PartialEq, Eq, Structural, PartialOrd, Ord, Hash)]
pub enum EncodingMode {
    Numeric,
    Alphanumeric,
    Byte,
}

/// The most restrictive set of characters a payload fits in.
#[derive(Clone, Copy, Debug, PartialEq, Eq, Structural, PartialOrd, Ord, Hash)]
pub enum CharacterSet {
    Numeric,
    Alphanumeric,
    Iso8859_1,
    Unicode,
}

pub open spec fn spec_encoding_mode(cs: CharacterSet) -> EncodingMode {
    match cs {
        CharacterSet::Numeric => EncodingMode::Numeric,
        CharacterSet::Alphanumeric => EncodingMode::Alphanumeric,
        CharacterSet::Iso8859_1 => EncodingMode::Byte,
        CharacterSet::Unicode => EncodingMode::Byte,
    }
}

impl CharacterSet {
    /// The segment mode that carries this character set.
    pub fn to_encoding_mode(self) -> (r: EncodingMode)
        ensures
            r == spec_encoding_mode(self),
    {
        match self {
            CharacterSet::Numeric => EncodingMode::Numeric,
            CharacterSet::Alphanumeric => EncodingMode::Alphanumeric,
            CharacterSet::Iso8859_1 => EncodingMode::Byte,
            CharacterSet::Unicode => EncodingMode::Byte,
        }
    }
}

/// An ASCII digit.
pub open spec fn spec_is_numeric(c: char) -> bool {
    48 <= (c as u32) <= 57
}

/// One of the 45 characters of alphanumeric mode.
pub open spec fn spec_is_alphanumeric(c: char) -> bool {
    ||| spec_is_numeric(c)
    ||| 65 <= (c as u32) <= 90
    ||| c == ' '
    ||| c == '$'
    ||| c == '%'
    ||| c == '*'
    ||| c == '+'
    ||| c == '-'
    ||| c == '.'
    ||| c == '/'
    ||| c == ':'
}

/// A code point of ISO-8859-1.
pub open spec fn spec_is_iso_8859_1(c: char) -> bool {
    (c as u32) <= 0xff
}

/// The character set of a text: the first of numeric, alphanumeric and
/// ISO-8859-1 that holds every character, else Unicode.
pub open spec fn spec_detect(s: Seq<char>) -> CharacterSet {
    if forall|i: int| 0 <= i < s.len() ==> spec_is_numeric(#[trigger] s[i]) {
        CharacterSet::Numeric
    } else if forall|i: int| 0 <= i < s.len() ==> spec_is_alphanumeric(#[trigger] s[i]) {
        CharacterSet::Alphanumeric
    } else if forall|i: int| 0 <= i < s.len() ==> spec_is_iso_8859_1(#[trigger] s[i]) {
        CharacterSet::Iso8859_1
    } else {
        CharacterSet::Unicode
    }
}

/// Value of an alphanumeric character: digits 0–9, letters 10–35, then
/// space $ % * + - . / : as 36–44.
pub open spec fn alnum_value(c: char) -> u32 {
    let u = c as u32;
    if 48 <= u <= 57 {
        (u - 48) as u32
    } else if 65 <= u <= 90 {
        (u - 55) as u32
    } else if c == ' ' {
        36
    } else if c == '$' {
        37
    } else if c == '%' {
        38
    } else if c == '*' {
        39
    } else if c == '+' {
        40
    } else if c == '-' {
        41
    } else if c == '.' {
        42
    } else if c == '/' {
        43
    } else {
        44
    }
}

/// Value of a digit character.
pub open spec fn digit_value(c: char) -> int {
    (c as u32) - 48
}

/// Bits of the first `k` full groups of three digits, 10 bits each.
pub open spec fn numeric_groups(s: Seq<char>, k: int) -> Seq<bool>
    decreases k,
{
    if k <= 0 {
        Seq::empty()
    } else {
        let i = 3 * (k - 1);
        numeric_groups(s, k - 1) + number_bits(
            (100 * digit_value(s[i]) + 10 * digit_value(s[i + 1]) + digit_value(s[i + 2])) as u32,
            10,
        )
    }
}

/// Numeric payload: groups of three digits in 10 bits, a trailing pair in 7,
/// a trailing digit in 4.
pub open spec fn numeric_payload(s: Seq<char>) -> Seq<bool> {
    let n = s.len() as int;
    let k = n / 3;
    numeric_groups(s, k) + if n % 3 == 2 {
        number_bits((10 * digit_value(s[n - 2]) + digit_value(s[n - 1])) as u32, 7)
    } else if n % 3 == 1 {
        number_bits(digit_value(s[n - 1]) as u32, 4)
    } else {
        Seq::empty()
    }
}

/// Bits of the first `k` character pairs, `45 * c1 + c2` in 11 bits each.
pub open spec fn alnum_pairs(s: Seq<char>, k: int) -> Seq<bool>
    decreases k,
{
    if k <= 0 {
        Seq::empty()
    } else {
        let i = 2 * (k - 1);
        alnum_pairs(s, k - 1) + number_bits(
            (45 * alnum_value(s[i]) + alnum_value(s[i + 1])) as u32,
            11,
        )
    }
}

/// Alphanumeric payload: pairs in 11 bits, a trailing character in 6.
pub open spec fn alnum_payload(s: Seq<char>) -> Seq<bool> {
    let n = s.len() as int;
    alnum_pairs(s, n / 2) + if n % 2 == 1 {
        number_bits(alnum_value(s[n - 1]), 6)
    } else {
        Seq::empty()
    }
}

/// ISO-8859-1 payload of the first `k` characters: each code point in 8 bits.
pub open spec fn iso_prefix(s: Seq<char>, k: int) -> Seq<bool>
    decreases k,
{
    if k <= 0 {
        Seq::empty()
    } else {
        iso_prefix(s, k - 1) + number_bits(s[k - 1] as u32, 8)
    }
}

pub open spec fn iso_payload(s: Seq<char>) -> Seq<bool> {
    iso_prefix(s, s.len() as int)
}

/// Mode indicator and character count indicator of a segment; Unicode text
/// is preceded by an ECI header naming UTF-8 (designator 26).
pub open spec fn segment_header(cs: CharacterSet, count: u32, v: u8) -> Seq<bool> {
    let cci = number_bits(count, spec_cci_bits(v, spec_encoding_mode(cs)) as nat);
    match cs {
        CharacterSet::Numeric => number_bits(0b0001, 4) + cci,
        CharacterSet::Alphanumeric => number_bits(0b0010, 4) + cci,
        CharacterSet::Iso8859_1 => number_bits(0b0100, 4) + cci,
        CharacterSet::Unicode => number_bits(0b0111, 4) + bits_of_byte(26) + number_bits(0b0100, 4)
            + cci,
    }
}

/// The payload bits of a text in a character set.
pub open spec fn segment_payload(cs: CharacterSet, chars: Seq<char>, bytes: Seq<u8>) -> Seq<
    bool,
> {
    match cs {
        CharacterSet::Numeric => numeric_payload(chars),
        CharacterSet::Alphanumeric => alnum_payload(chars),
        CharacterSet::Iso8859_1 => iso_payload(chars),
        CharacterSet::Unicode => bits_of_bytes(bytes),
    }
}

/// A whole segment. The character count indicator holds the number of
/// characters, or of UTF-8 bytes for Unicode text.
pub open spec fn segment_bits(cs: CharacterSet, chars: Seq<char>, bytes: Seq<u8>, v: u8) -> Seq<
    bool,
> {
    segment_header(cs, segment_units(cs, chars, bytes) as u32, v) + segment_payload(cs, chars, bytes)
}

pub open spec fn zeros(n: nat) -> Seq<bool> {
    Seq::new(n, |i: int| false)
}

/// Up to four terminator bits, never past `max`.
pub open spec fn with_terminator(bits: Seq<bool>, max: int) -> Seq<bool> {
    bits + zeros(
        if max - bits.len() < 4 {
            (max - bits.len()) as nat
        } else {
            4
        },
    )
}

/// Zero bits up to the next byte boundary.
pub open spec fn byte_aligned(bits: Seq<bool>) -> Seq<bool> {
    bits + zeros(((8 - bits.len() % 8) % 8) as nat)
}

/// `n` padding bytes: 0xEC and 0x11 in turn.
pub open spec fn pad_bytes(n: nat) -> Seq<u8> {
    Seq::new(n, |i: int| if i % 2 == 0 { 0xECu8 } else { 0x11u8 })
}

/// A segment completed to `max` bits: terminator, alignment, padding bytes.
pub open spec fn finished(bits: Seq<bool>, max: int) -> Seq<bool> {
    let a = byte_aligned(with_terminator(bits, max));
    a + bits_of_bytes(pad_bytes(((max - a.len()) / 8) as nat))
}

/// The data bit stream of a text at a version and level.
pub open spec fn encoded_bits(
    cs: CharacterSet,
    chars: Seq<char>,
    bytes: Seq<u8>,
    v: u8,
    e: ErrorCorrectionLevel,
) -> Seq<bool> {
    finished(segment_bits(cs, chars, bytes, v), 8 * spec_data_codewords(v, e))
}

/// Length in bits of a segment of `n` units (characters; bytes for Unicode).
pub open spec fn spec_bit_length(n: int, v: u8, cs: CharacterSet) -> int {
    let head = 4 + spec_cci_bits(v, spec_encoding_mode(cs));
    match cs {
        CharacterSet::Numeric => head + 10 * (n / 3) + if n % 3 == 0 {
            0int
        } else if n % 3 == 1 {
            4int
        } else {
            7int
        },
        CharacterSet::Alphanumeric => head + 11 * (n / 2) + 6 * (n % 2),
        CharacterSet::Iso8859_1 => head + 8 * n,
        CharacterSet::Unicode => 12 + head + 8 * n,
    }
}

/// The units the length formula counts: bytes for Unicode, characters otherwise.
pub open spec fn segment_units(cs: CharacterSet, chars: Seq<char>, bytes: Seq<u8>) -> int {
    if cs == CharacterSet::Unicode {
        bytes.len() as int
    } else {
        chars.len() as int
    }
}

/// Whether every character belongs to the set.
pub open spec fn chars_fit(cs: CharacterSet, chars: Seq<char>) -> bool {
    match cs {
        CharacterSet::Numeric => forall|i: int|
            0 <= i < chars.len() ==> spec_is_numeric(#[trigger] chars[i]),
        CharacterSet::Alphanumeric => forall|i: int|
            0 <= i < chars.len() ==> spec_is_alphanumeric(#[trigger] chars[i]),
        CharacterSet::Iso8859_1 => forall|i: int|
            0 <= i < chars.len() ==> spec_is_iso_8859_1(#[trigger] chars[i]),
        CharacterSet::Unicode => true,
    }
}

/// The strongest level, starting from `e`, whose capacity at version `v` still
/// holds `bit_len` bits.
pub open spec fn select_level(e: ErrorCorrectionLevel, v: u8, bit_len: int) -> ErrorCorrectionLevel
    decreases 3 - level_rank(e),
{
    match spec_increment(e) {
        Some(n) => if level_rank(n) > level_rank(e) && 8 * spec_data_codewords(v, n) >= bit_len {
            select_level(n, v, bit_len)
        } else {
            e
        },
        None => e,
    }
}

/// The smallest version, counting down from `v`, whose capacity at level `e`
/// still holds `bit_len` bits.
pub open spec fn select_version(v: u8, e: ErrorCorrectionLevel, bit_len: int) -> u8
    decreases v,
{
    if v > 1 && 8 * spec_data_codewords((v - 1) as u8, e) >= bit_len {
        select_version((v - 1) as u8, e, bit_len)
    } else {
        v
    }
}

/// The selected version never exceeds the one counted down from.
pub proof fn lemma_select_version_bound(v: u8, e: ErrorCorrectionLevel, bit_len: int)
    ensures
        1 <= v ==> 1 <= select_version(v, e, bit_len) <= v,
        select_version(v, e, bit_len) <= v,
    decreases v,
{
    if v > 1 && 8 * spec_data_codewords((v - 1) as u8, e) >= bit_len {
        lemma_select_version_bound((v - 1) as u8, e, bit_len);
    }
}

proof fn lemma_zero_bits(w: nat)
    ensures
        number_bits(0, w) == zeros(w),
{
    assert forall|idx: u32| #[trigger] number_bit(0, idx) == false by {
        assert((0u32 >> idx) & 1u32 == 0u32) by (bit_vector);
    }
    assert(number_bits(0, w) =~= zeros(w));
}

proof fn lemma_numeric_groups_len(s: Seq<char>, k: int)
    requires
        k >= 0,
    ensures
        numeric_groups(s, k).len() == 10 * k,
    decreases k,
{
    if k > 0 {
        lemma_numeric_groups_len(s, k - 1);
    }
}

proof fn lemma_alnum_pairs_len(s: Seq<char>, k: int)
    requires
        k >= 0,
    ensures
        alnum_pairs(s, k).len() == 11 * k,
    decreases k,
{
    if k > 0 {
        lemma_alnum_pairs_len(s, k - 1);
    }
}

proof fn lemma_iso_prefix_len(s: Seq<char>, k: int)
    requires
        k >= 0,
    ensures
        iso_prefix(s, k).len() == 8 * k,
    decreases k,
{
    if k > 0 {
        lemma_iso_prefix_len(s, k - 1);
    }
}

/// The segment encoder writes exactly as many bits as the length formula
/// predicts, for every text of its character set and every version up to 40.
pub proof fn lemma_segment_length(cs: CharacterSet, chars: Seq<char>, bytes: Seq<u8>, v: u8)
    requires
        v <= 40,
    ensures
        segment_bits(cs, chars, bytes, v).len() == spec_bit_length(
            segment_units(cs, chars, bytes),
            v,
            cs,
        ),
{
    let n = chars.len() as int;
    lemma_numeric_groups_len(chars, n / 3);
    lemma_alnum_pairs_len(chars, n / 2);
    lemma_iso_prefix_len(chars, n);
}

/// Versions 1 to 9 share their character count indicator widths, so the
/// length formula gives the same result at any two of them.
pub proof fn lemma_bit_length_same_band(n: int, v1: u8, v2: u8, cs: CharacterSet)
    requires
        1 <= v1 <= 9,
        1 <= v2 <= 9,
    ensures
        spec_bit_length(n, v1, cs) == spec_bit_length(n, v2, cs),
        segment_header(cs, 0, v1).len() == segment_header(cs, 0, v2).len(),
{
}

/// Whether `c` is an ASCII digit.
pub fn is_char_numeric(c: char) -> (r: bool)
    ensures
        r == spec_is_numeric(c),
{
    '0' <= c && c <= '9'
}

/// Whether `c` is one of the 45 alphanumeric-mode characters.
pub fn is_char_alphanumeric(c: char) -> (r: bool)
    ensures
        r == spec_is_alphanumeric(c),
{
    ('0' <= c && c <= '9') || ('A' <= c && c <= 'Z') || c == ' ' || c == '$' || c == '%' || c
        == '*' || c == '+' || c == '-' || c == '.' || c == '/' || c == ':'
}

/// Whether `c` is a code point of ISO-8859-1.
pub fn is_char_iso_8859_1(c: char) -> (r: bool)
    ensures
        r == spec_is_iso_8859_1(c),
{
    c as u32 <= 0xff
}

/// The characters of a text, in order.
fn text_chars(text: &str) -> (r: Vec<char>)
    ensures
        r@ == text@,
{
    let mut out: Vec<char> = Vec::new();
    for c in it: text.chars()
        invariant
            out@ == it.seq().take(it.index() as int),
    {
        out.push(c);
    }
    out
}

/// Picks the most restrictive character set that holds every character.
pub fn detect_character_set(data: &str) -> (r: CharacterSet)
    ensures
        r == spec_detect(data@),
        chars_fit(r, data@),
{
    let chars = text_chars(data);
    let mut all_numeric = true;
    let mut all_alphanumeric = true;
    let mut all_iso = true;
    let mut i: usize = 0;
    while i < chars.len()
        invariant
            i <= chars@.len(),
            chars@ == data@,
            all_numeric == forall|j: int| 0 <= j < i ==> spec_is_numeric(#[trigger] chars@[j]),
            all_alphanumeric == forall|j: int|
                0 <= j < i ==> spec_is_alphanumeric(#[trigger] chars@[j]),
            all_iso == forall|j: int| 0 <= j < i ==> spec_is_iso_8859_1(#[trigger] chars@[j]),
        decreases chars@.len() - i,
    {
        let c = chars[i];
        all_numeric = all_numeric && is_char_numeric(c);
        all_alphanumeric = all_alphanumeric && is_char_alphanumeric(c);
        all_iso = all_iso && is_char_iso_8859_1(c);
        i = i + 1;
    }
    if all_numeric {
        CharacterSet::Numeric
    } else if all_alphanumeric {
        CharacterSet::Alphanumeric
    } else if all_iso {
        CharacterSet::Iso8859_1
    } else {
        CharacterSet::Unicode
    }
}

/// Length in bits of a segment of `data_len` units (characters; bytes for
/// Unicode) before terminator and padding.
pub fn calculate_encoded_data_bit_length(
    data_len: usize,
    version: Version,
    character_set: CharacterSet,
) -> (r: usize)
    requires
        version.version <= 40,
        data_len <= BUFFER_BITS,
    ensures
        r == spec_bit_length(data_len as int, version.version, character_set),
{
    let mode_bits: usize = 4;
    let char_count_len = version.character_count_indicator_bit_length(
        character_set.to_encoding_mode(),
    );
    match character_set {
        CharacterSet::Numeric => {
            let rest: usize = if data_len % 3 == 0 {
                0
            } else if data_len % 3 == 1 {
                4
            } else {
                7
            };
            mode_bits + char_count_len + 10 * (data_len / 3) + rest
        },
        CharacterSet::Alphanumeric => {
            mode_bits + char_count_len + 11 * (data_len / 2) + 6 * (data_len % 2)
        },
        CharacterSet::Iso8859_1 => mode_bits + char_count_len + 8 * data_len,
        CharacterSet::Unicode => 4 + 8 + mode_bits + char_count_len + 8 * data_len,
    }
}

/// Appends the terminator (at most four zero bits, never past `max`) and the
/// zero bits up to the next byte boundary.
fn append_terminator(buffer: &mut Buffer, max: usize)
    requires
        old(buffer).wf(),
        old(buffer)@.len() <= max,
        max % 8 == 0,
        max <= BUFFER_BITS,
    ensures
        final(buffer).wf(),
        final(buffer)@ == byte_aligned(with_terminator(old(buffer)@, max as int)),
        final(buffer)@.len() <= max,
        final(buffer)@.len() % 8 == 0,
{
    let len = buffer.bit_len();
    let t = if max - len < 4 {
        max - len
    } else {
        4
    };
    proof {
        lemma_zero_bits(t as nat);
    }
    buffer.append_number(0, t);
    let len = buffer.bit_len();
    let z = (8 - len % 8) % 8;
    proof {
        lemma_zero_bits(z as nat);
    }
    buffer.append_number(0, z);
}

/// Appends padding bytes 0xEC and 0x11 in turn until the buffer holds `max` bits.
fn append_padding(buffer: &mut Buffer, max: usize)
    requires
        old(buffer).wf(),
        old(buffer)@.len() <= max,
        old(buffer)@.len() % 8 == 0,
        max % 8 == 0,
        max <= BUFFER_BITS,
    ensures
        final(buffer).wf(),
        final(buffer)@ == old(buffer)@ + bits_of_bytes(
            pad_bytes(((max - old(buffer)@.len()) / 8) as nat),
        ),
        final(buffer)@.len() == max,
{
    let mut i: usize = 0;
    while buffer.bit_len() < max
        invariant
            buffer.wf(),
            buffer@ == old(buffer)@ + bits_of_bytes(pad_bytes(i as nat)),
            buffer@.len() == old(buffer)@.len() + 8 * i,
            buffer@.len() <= max,
            max % 8 == 0,
            old(buffer)@.len() % 8 == 0,
            max <= BUFFER_BITS,
        decreases max - buffer@.len(),
    {
        let b: u8 = if i % 2 == 0 {
            0xEC
        } else {
            0x11
        };
        buffer.append_byte(b);
        proof {
            lemma_bits_of_bytes_push(pad_bytes(i as nat), b);
            assert(pad_bytes(i as nat).push(b) =~= pad_bytes((i + 1) as nat));
        }
        i = i + 1;
    }
}

/// Completes a segment: terminator, alignment and padding up to `max` bits.
fn finish_segment(buffer: &mut Buffer, max: usize)
    requires
        old(buffer).wf(),
        old(buffer)@.len() <= max,
        max % 8 == 0,
        max <= BUFFER_BITS,
    ensures
        final(buffer).wf(),
        final(buffer)@ == finished(old(buffer)@, max as int),
        final(buffer)@.len() == max,
{
    append_terminator(buffer, max);
    append_padding(buffer, max);
}

/// Writes the digits of a numeric text.
fn append_numeric_data(data: &str, buffer: &mut Buffer)
    requires
        old(buffer).wf(),
        chars_fit(CharacterSet::Numeric, data@),
        old(buffer)@.len() + numeric_payload(data@).len() <= BUFFER_BITS,
    ensures
        final(buffer).wf(),
        final(buffer)@ == old(buffer)@ + numeric_payload(data@),
{
    let chars = text_chars(data);
    let n = chars.len();
    let ghost s = data@;
    proof {
        lemma_numeric_groups_len(s, n as int / 3);
    }
    let mut i: usize = 0;
    while i + 3 <= n
        invariant
            buffer.wf(),
            chars@ == s,
            n == s.len(),
            i % 3 == 0,
            i <= n,
            chars_fit(CharacterSet::Numeric, s),
            buffer@ == old(buffer)@ + numeric_groups(s, i as int / 3),
            old(buffer)@.len() + numeric_payload(s).len() <= BUFFER_BITS,
            numeric_groups(s, n as int / 3).len() == 10 * (n as int / 3),
        decreases n - i,
    {
        let d0 = chars[i] as u32 - 48;
        let d1 = chars[i + 1] as u32 - 48;
        let d2 = chars[i + 2] as u32 - 48;
        proof {
            assert(spec_is_numeric(s[i as int]) && spec_is_numeric(s[i + 1]) && spec_is_numeric(
                s[i + 2],
            ));
            lemma_numeric_groups_len(s, i as int / 3);
            lemma_numeric_groups_len(s, i as int / 3 + 1);
            assert((i + 3) as int / 3 == i as int / 3 + 1);
        }
        buffer.append_number(100 * d0 + 10 * d1 + d2, 10);
        i = i + 3;
    }
    assert(i as int / 3 == n as int / 3);
    if n - i == 2 {
        let d0 = chars[i] as u32 - 48;
        let d1 = chars[i + 1] as u32 - 48;
        proof {
            assert(spec_is_numeric(s[i as int]) && spec_is_numeric(s[i + 1]));
        }
        buffer.append_number(10 * d0 + d1, 7);
    } else if n - i == 1 {
        let d0 = chars[i] as u32 - 48;
        proof {
            assert(spec_is_numeric(s[i as int]));
        }
        buffer.append_number(d0, 4);
    } else {
        assert(buffer@ =~= old(buffer)@ + numeric_payload(s));
    }
}

/// Writes the characters of an alphanumeric text.
fn append_alphanumeric_data(data: &str, buffer: &mut Buffer)
    requires
        old(buffer).wf(),
        chars_fit(CharacterSet::Alphanumeric, data@),
        old(buffer)@.len() + alnum_payload(data@).len() <= BUFFER_BITS,
    ensures
        final(buffer).wf(),
        final(buffer)@ == old(buffer)@ + alnum_payload(data@),
{
    let chars = text_chars(data);
    let n = chars.len();
    let ghost s = data@;
    proof {
        lemma_alnum_pairs_len(s, n as int / 2);
    }
    let mut i: usize = 0;
    while i + 2 <= n
        invariant
            buffer.wf(),
            chars@ == s,
            n == s.len(),
            i % 2 == 0,
            i <= n,
            chars_fit(CharacterSet::Alphanumeric, s),
            buffer@ == old(buffer)@ + alnum_pairs(s, i as int / 2),
            old(buffer)@.len() + alnum_payload(s).len() <= BUFFER_BITS,
            alnum_pairs(s, n as int / 2).len() == 11 * (n as int / 2),
        decreases n - i,
    {
        proof {
            assert(spec_is_alphanumeric(s[i as int]) && spec_is_alphanumeric(s[i + 1]));
            lemma_alnum_pairs_len(s, i as int / 2);
            lemma_alnum_pairs_len(s, i as int / 2 + 1);
            assert((i + 2) as int / 2 == i as int / 2 + 1);
        }
        let c1 = AlphanumericDataEncoder::convert_alphanumeric(chars[i]);
        let c2 = AlphanumericDataEncoder::convert_alphanumeric(chars[i + 1]);
        buffer.append_number(45 * c1 + c2, 11);
        i = i + 2;
    }
    assert(i as int / 2 == n as int / 2);
    if n - i == 1 {
        proof {
            assert(spec_is_alphanumeric(s[i as int]));
        }
        let c1 = AlphanumericDataEncoder::convert_alphanumeric(chars[i]);
        buffer.append_number(c1, 6);
    } else {
        assert(buffer@ =~= old(buffer)@ + alnum_payload(s));
    }
}

/// Writes the code points of an ISO-8859-1 text, one byte each.
fn append_iso8859_1_data(data: &str, buffer: &mut Buffer)
    requires
        old(buffer).wf(),
        chars_fit(CharacterSet::Iso8859_1, data@),
        old(buffer)@.len() + iso_payload(data@).len() <= BUFFER_BITS,
    ensures
        final(buffer).wf(),
        final(buffer)@ == old(buffer)@ + iso_payload(data@),
{
    let chars = text_chars(data);
    let n = chars.len();
    let ghost s = data@;
    proof {
        lemma_iso_prefix_len(s, n as int);
    }
    let mut i: usize = 0;
    while i < n
        invariant
            buffer.wf(),
            chars@ == s,
            n == s.len(),
            i <= n,
            buffer@ == old(buffer)@ + iso_prefix(s, i as int),
            old(buffer)@.len() + iso_payload(s).len() <= BUFFER_BITS,
            iso_prefix(s, n as int).len() == 8 * n,
        decreases n - i,
    {
        proof {
            lemma_iso_prefix_len(s, i as int);
        }
        buffer.append_number(chars[i] as u32, 8);
        i = i + 1;
    }
}

/// Writes a data segment for a version and level, then completes it with
/// terminator and padding: the shared steps of every encoder.
fn encode_segment(
    character_set: CharacterSet,
    version: Version,
    error_correction: ErrorCorrectionLevel,
    data: &str,
) -> (r: Buffer)
    requires
        version.supported(),
        chars_fit(character_set, data@),
        data.spec_bytes().len() <= BUFFER_BITS,
        spec_bit_length(
            segment_units(character_set, data@, data.spec_bytes()),
            version.version,
            character_set,
        ) <= 8 * spec_data_codewords(version.version, error_correction),
    ensures
        r.wf(),
        r@.len() == 8 * spec_data_codewords(version.version, error_correction),
        r@ == encoded_bits(
            character_set,
            data@,
            data.spec_bytes(),
            version.version,
            error_correction,
        ),
{
    proof {
        lemma_codeword_counts(version, error_correction);
        lemma_segment_length(character_set, data@, data.spec_bytes(), version.version);
    }
    let ghost bytes = data.spec_bytes();
    let mut buffer = Buffer::new();
    let units = if character_set == CharacterSet::Unicode {
        data.as_bytes().len()
    } else {
        text_chars(data).len()
    };
    assert(units <= 8192);
    let count = units as u32;
    let bit_len = version.character_count_indicator_bit_length(
        character_set.to_encoding_mode(),
    );
    match character_set {
        CharacterSet::Numeric => {
            buffer.append_number(0b0001, 4);
            buffer.append_number(count, bit_len);
            append_numeric_data(data, &mut buffer);
        },
        CharacterSet::Alphanumeric => {
            buffer.append_number(0b0010, 4);
            buffer.append_number(count, bit_len);
            append_alphanumeric_data(data, &mut buffer);
        },
        CharacterSet::Iso8859_1 => {
            buffer.append_number(0b0100, 4);
            buffer.append_number(count, bit_len);
            append_iso8859_1_data(data, &mut buffer);
        },
        CharacterSet::Unicode => {
            buffer.append_number(0b0111, 4);
            buffer.append_byte(26);
            buffer.append_number(0b0100, 4);
            buffer.append_number(count, bit_len);
            buffer.append_bytes(data.as_bytes());
        },
    }
    assert(buffer@ =~= segment_bits(character_set, data@, bytes, version.version));
    let max = version.data_codeword_bit_len(error_correction);
    finish_segment(&mut buffer, max);
    buffer
}

/// Encodes numeric text.
pub struct NumericDataEncoder {
    pub version: Version,
    pub error_correction: ErrorCorrectionLevel,
}

impl NumericDataEncoder {
    /// Writes the whole data bit stream of a numeric text.
    pub fn encode(&self, data: &str) -> (r: Buffer)
        requires
            self.version.supported(),
            chars_fit(CharacterSet::Numeric, data@),
            data.spec_bytes().len() <= BUFFER_BITS,
            spec_bit_length(data@.len() as int, self.version.version, CharacterSet::Numeric) <= 8
                * spec_data_codewords(self.version.version, self.error_correction),
        ensures
            r.wf(),
            r@.len() == 8 * spec_data_codewords(self.version.version, self.error_correction),
            r@ == encoded_bits(
                CharacterSet::Numeric,
                data@,
                data.spec_bytes(),
                self.version.version,
                self.error_correction,
            ),
    {
        encode_segment(CharacterSet::Numeric, self.version, self.error_correction, data)
    }
}

/// Encodes alphanumeric text.
pub struct AlphanumericDataEncoder {
    pub version: Version,
    pub error_correction: ErrorCorrectionLevel,
}

impl AlphanumericDataEncoder {
    /// The value of an alphanumeric character.
    fn convert_alphanumeric(c: char) -> (r: u32)
        requires
            spec_is_alphanumeric(c),
        ensures
            r == alnum_value(c),
            r < 45,
    {
        let u = c as u32;
        if 48 <= u && u <= 57 {
            u - 48
        } else if 65 <= u && u <= 90 {
            u - 55
        } else {
            match c {
                ' ' => 36,
                '$' => 37,
                '%' => 38,
                '*' => 39,
                '+' => 40,
                '-' => 41,
                '.' => 42,
                '/' => 43,
                _ => 44,
            }
        }
    }

    /// Writes the whole data bit stream of an alphanumeric text.
    pub fn encode(&self, data: &str) -> (r: Buffer)
        requires
            self.version.supported(),
            chars_fit(CharacterSet::Alphanumeric, data@),
            data.spec_bytes().len() <= BUFFER_BITS,
            spec_bit_length(data@.len() as int, self.version.version, CharacterSet::Alphanumeric)
                <= 8 * spec_data_codewords(self.version.version, self.error_correction),
        ensures
            r.wf(),
            r@.len() == 8 * spec_data_codewords(self.version.version, self.error_correction),
            r@ == encoded_bits(
                CharacterSet::Alphanumeric,
                data@,
                data.spec_bytes(),
                self.version.version,
                self.error_correction,
            ),
    {
        encode_segment(CharacterSet::Alphanumeric, self.version, self.error_correction, data)
    }
}

/// Encodes ISO-8859-1 text in byte mode.
pub struct Iso8859_1DataEncoder {
    pub version: Version,
    pub error_correction: ErrorCorrectionLevel,
}

impl Iso8859_1DataEncoder {
    /// Writes the whole data bit stream of an ISO-8859-1 text.
    pub fn encode(&self, data: &str) -> (r: Buffer)
        requires
            self.version.supported(),
            chars_fit(CharacterSet::Iso8859_1, data@),
            data.spec_bytes().len() <= BUFFER_BITS,
            spec_bit_length(data@.len() as int, self.version.version, CharacterSet::Iso8859_1)
                <= 8 * spec_data_codewords(self.version.version, self.error_correction),
        ensures
            r.wf(),
            r@.len() == 8 * spec_data_codewords(self.version.version, self.error_correction),
            r@ == encoded_bits(
                CharacterSet::Iso8859_1,
                data@,
                data.spec_bytes(),
                self.version.version,
                self.error_correction,
            ),
    {
        encode_segment(CharacterSet::Iso8859_1, self.version, self.error_correction, data)
    }
}

/// Encodes any text as UTF-8 bytes behind an ECI header.
pub struct UnicodeDataEncoder {
    pub version: Version,
    pub error_correction: ErrorCorrectionLevel,
}

impl UnicodeDataEncoder {
    /// Writes the whole data bit stream of a text as UTF-8.
    pub fn encode(&self, data: &str) -> (r: Buffer)
        requires
            self.version.supported(),
            data.spec_bytes().len() <= BUFFER_BITS,
            spec_bit_length(
                data.spec_bytes().len() as int,
                self.version.version,
                CharacterSet::Unicode,
            ) <= 8 * spec_data_codewords(self.version.version, self.error_correction),
        ensures
            r.wf(),
            r@.len() == 8 * spec_data_codewords(self.version.version, self.error_correction),
            r@ == encoded_bits(
                CharacterSet::Unicode,
                data@,
                data.spec_bytes(),
                self.version.version,
                self.error_correction,
            ),
    {
        encode_segment(CharacterSet::Unicode, self.version, self.error_correction, data)
    }
}

/// A data bit stream with the version and level it was laid out for.
pub struct EncodedData {
    pub version: Version,
    pub error_correction: ErrorCorrectionLevel,
    pub buffer: Buffer,
}

impl EncodedData {
    /// The version is supported and the buffer holds exactly its data capacity.
    pub open spec fn wf(&self) -> bool {
        &&& self.version.supported()
        &&& self.buffer.wf()
        &&& self.buffer@.len() == 8 * spec_data_codewords(
            self.version.version,
            self.error_correction,
        )
    }
}

/// Raises a minimum level while `bit_len` bits still fit at `max_version`.
fn select_error_correction(
    error_correction_restriction: ErrorCorrectionRestriction,
    max_version: Version,
    bit_len: usize,
) -> (r: ErrorCorrectionLevel)
    requires
        max_version.supported(),
        8 * spec_data_codewords(max_version.version, error_correction_restriction.spec_level())
            >= bit_len,
    ensures
        r == chosen_level(error_correction_restriction, max_version, bit_len as int),
        8 * spec_data_codewords(max_version.version, r) >= bit_len,
{
    match error_correction_restriction {
        ErrorCorrectionRestriction::MinErrorCorrection(min_error_correction) => {
            let mut selected = min_error_correction;
            loop
                invariant
                    max_version.supported(),
                    8 * spec_data_codewords(max_version.version, selected) >= bit_len,
                    select_level(min_error_correction, max_version.version, bit_len as int)
                        == select_level(selected, max_version.version, bit_len as int),
                ensures
                    8 * spec_data_codewords(max_version.version, selected) >= bit_len,
                    select_level(min_error_correction, max_version.version, bit_len as int)
                        == selected,
                decreases 3 - level_rank(selected),
            {
                match selected.increment() {
                    Some(increased) => {
                        if max_version.data_codeword_bit_len(increased) >= bit_len {
                            selected = increased;
                        } else {
                            break ;
                        }
                    },
                    None => {
                        break ;
                    },
                }
            }
            selected
        },
        ErrorCorrectionRestriction::SpecificErrorCorrection(error_correction) => error_correction,
    }
}

/// Lowers a maximum version while `bit_len` bits still fit at level `selected_error_correction`.
fn select_version_within(
    version_restriction: VersionRestriction,
    selected_error_correction: ErrorCorrectionLevel,
    bit_len: usize,
) -> (r: Version)
    requires
        version_restriction.spec_version().supported(),
        8 * spec_data_codewords(version_restriction.spec_version().version, selected_error_correction)
            >= bit_len,
    ensures
        r == chosen_version(version_restriction, selected_error_correction, bit_len as int),
        r.supported(),
        8 * spec_data_codewords(r.version, selected_error_correction) >= bit_len,
{
    match version_restriction {
        VersionRestriction::MaxVersion(max_version) => {
            let mut selected = max_version;
            loop
                invariant
                    selected.supported(),
                    8 * spec_data_codewords(selected.version, selected_error_correction)
                        >= bit_len,
                    select_version(max_version.version, selected_error_correction, bit_len as int)
                        == select_version(
                        selected.version,
                        selected_error_correction,
                        bit_len as int,
                    ),
                ensures
                    selected.supported(),
                    8 * spec_data_codewords(selected.version, selected_error_correction)
                        >= bit_len,
                    select_version(max_version.version, selected_error_correction, bit_len as int)
                        == selected.version,
                decreases selected.version,
            {
                match selected.decrement() {
                    Some(decreased) => {
                        if decreased.data_codeword_bit_len(selected_error_correction) >= bit_len {
                            selected = decreased;
                        } else {
                            break ;
                        }
                    },
                    None => {
                        break ;
                    },
                }
            }
            selected
        },
        VersionRestriction::SpecificVersion(version) => version,
    }
}

/// Encodes a text with the encoder of its character set.
fn encode_with(
    character_set: CharacterSet,
    selected_version: Version,
    selected_error_correction: ErrorCorrectionLevel,
    text: &str,
) -> (r: Buffer)
    requires
        selected_version.supported(),
        chars_fit(character_set, text@),
        text.spec_bytes().len() <= BUFFER_BITS,
        spec_bit_length(
            segment_units(character_set, text@, text.spec_bytes()),
            selected_version.version,
            character_set,
        ) <= 8 * spec_data_codewords(selected_version.version, selected_error_correction),
    ensures
        r.wf(),
        r@.len() == 8 * spec_data_codewords(selected_version.version, selected_error_correction),
        r@ == encoded_bits(
            character_set,
            text@,
            text.spec_bytes(),
            selected_version.version,
            selected_error_correction,
        ),
{
    match character_set {
        CharacterSet::Numeric => {
            let encoder = NumericDataEncoder {
                version: selected_version,
                error_correction: selected_error_correction,
            };
            encoder.encode(text)
        },
        CharacterSet::Alphanumeric => {
            let encoder = AlphanumericDataEncoder {
                version: selected_version,
                error_correction: selected_error_correction,
            };
            encoder.encode(text)
        },
        CharacterSet::Iso8859_1 => {
            let encoder = Iso8859_1DataEncoder {
                version: selected_version,
                error_correction: selected_error_correction,
            };
            encoder.encode(text)
        },
        CharacterSet::Unicode => {
            let encoder = UnicodeDataEncoder {
                version: selected_version,
                error_correction: selected_error_correction,
            };
            encoder.encode(text)
        },
    }
}

/// The level `encode_text` settles on.
pub open spec fn chosen_level(
    er: ErrorCorrectionRestriction,
    upper: Version,
    bit_len: int,
) -> ErrorCorrectionLevel {
    match er {
        ErrorCorrectionRestriction::MinErrorCorrection(e) => select_level(
            e,
            upper.version,
            bit_len,
        ),
        ErrorCorrectionRestriction::SpecificErrorCorrection(e) => e,
    }
}

/// The version `encode_text` settles on.
pub open spec fn chosen_version(
    vr: VersionRestriction,
    e: ErrorCorrectionLevel,
    bit_len: int,
) -> Version {
    match vr {
        VersionRestriction::MaxVersion(v) => Version { version: select_version(v.version, e, bit_len) },
        VersionRestriction::SpecificVersion(v) => v,
    }
}

/// Picks the version and level for a text within the restrictions, then
/// encodes it.
///
/// The payload is measured at the restriction's version. It must fit at the
/// weakest allowed level; a minimum level is raised while the payload still
/// fits, then a maximum version is lowered while it still fits.
pub fn encode_text(
    version_restriction: VersionRestriction,
    error_correction_restriction: ErrorCorrectionRestriction,
    text: &str,
) -> (r: Result<EncodedData, QrError>)
    ensures
        ({
            let cs = spec_detect(text@);
            let upper = version_restriction.spec_version();
            let min = error_correction_restriction.spec_level();
            let bytes = text.spec_bytes();
            let bit_len = spec_bit_length(segment_units(cs, text@, bytes), upper.version, cs);
            if !upper.supported() {
                r == Err::<EncodedData, QrError>(QrError::UnsupportedVersion)
            } else if bytes.len() > BUFFER_BITS || bit_len > 8 * spec_data_codewords(
                upper.version,
                min,
            ) {
                r == Err::<EncodedData, QrError>(QrError::CapacityExceeded)
            } else {
                let e = chosen_level(error_correction_restriction, upper, bit_len);
                let v = chosen_version(version_restriction, e, bit_len);
                &&& r is Ok
                &&& r->Ok_0.wf()
                &&& r->Ok_0.version == v
                &&& r->Ok_0.error_correction == e
                &&& r->Ok_0.buffer@ == encoded_bits(cs, text@, bytes, v.version, e)
            }
        }),
{
    let character_set = detect_character_set(text);
    let max_version = version_restriction.to_version();
    if !max_version.is_supported() {
        return Err(QrError::UnsupportedVersion);
    }
    let min_error_correction = error_correction_restriction.to_error_correction();
    let byte_len = text.as_bytes().len();
    if byte_len > BUFFER_BITS {
        return Err(QrError::CapacityExceeded);
    }
    proof {
        lemma_codeword_counts(max_version, min_error_correction);
    }
    let units = if character_set == CharacterSet::Unicode {
        byte_len
    } else {
        text_chars(text).len()
    };
    if units > BUFFER_BITS {
        assert(spec_bit_length(units as int, max_version.version, character_set) > 8
            * spec_data_codewords(max_version.version, min_error_correction));
        return Err(QrError::CapacityExceeded);
    }
    let bit_len = calculate_encoded_data_bit_length(units, max_version, character_set);
    if max_version.data_codeword_bit_len(min_error_correction) < bit_len {
        return Err(QrError::CapacityExceeded);
    }
    let selected_error_correction = select_error_correction(
        error_correction_restriction,
        max_version,
        bit_len,
    );
    let selected_version = select_version_within(
        version_restriction,
        selected_error_correction,
        bit_len,
    );
    proof {
        lemma_bit_length_same_band(
            units as int,
            selected_version.version,
            max_version.version,
            character_set,
        );
    }
    let buffer = encode_with(character_set, selected_version, selected_error_correction, text);
    Ok(
        EncodedData {
            version: selected_version,
            error_correction: selected_error_correction,
            buffer,
        },
    )
}

} // verus!
