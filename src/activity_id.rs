//! The compact status identifier: a language, an illustration id, a page
//! index and a page-range length packed into one 64-bit integer.
//!
//! Layout, from the most significant byte down: one byte of range length
//! (`offset_end`), one byte of language code, four bytes of illustration id,
//! two bytes of page index.

use vstd::prelude::*;

verus! {

/// An identifier as a caller sees it.
#[derive(Debug)]
pub struct ActivityId {
    pub language: String,
    pub id: u32,
    pub index: u16,
    pub offset_end: u16,
}

/// The mathematical content of an [`ActivityId`].
pub struct ActivityIdModel {
    pub language: Seq<char>,
    pub id: u32,
    pub index: u16,
    pub offset_end: u16,
}

impl View for ActivityId {
    type V = ActivityIdModel;

    open spec fn view(&self) -> ActivityIdModel {
        ActivityIdModel {
            language: self.language@,
            id: self.id,
            index: self.index,
            offset_end: self.offset_end,
        }
    }
}

/// Code of a language in the identifier; unknown languages count as `jp`.
pub open spec fn language_code(language: Seq<char>) -> u8 {
    if language == "en"@ {
        1
    } else if language == "zh"@ {
        2
    } else if language == "zh_tw"@ {
        3
    } else if language == "ko"@ {
        4
    } else {
        0
    }
}

/// Language named by a code; unknown codes name `jp`.
pub open spec fn language_name(code: u8) -> Seq<char> {
    if code == 1 {
        "en"@
    } else if code == 2 {
        "zh"@
    } else if code == 3 {
        "zh_tw"@
    } else if code == 4 {
        "ko"@
    } else {
        "jp"@
    }
}

/// The five languages that the identifier can carry.
pub open spec fn known_language(language: Seq<char>) -> bool {
    language == "jp"@ || language == "en"@ || language == "zh"@ || language == "zh_tw"@
        || language == "ko"@
}

pub open spec fn clamped_offset_end(offset_end: u16) -> u8 {
    if offset_end > 255 {
        255
    } else {
        offset_end as u8
    }
}

/// The 64-bit encoding of an identifier.
pub open spec fn encoded(m: ActivityIdModel) -> u64 {
    (clamped_offset_end(m.offset_end) as int * 0x100_0000_0000_0000
        + language_code(m.language) as int * 0x1_0000_0000_0000 + m.id as int * 0x1_0000
        + m.index as int) as u64
}

/// The identifier that a 64-bit value encodes.
pub open spec fn decoded(v: u64) -> ActivityIdModel {
    ActivityIdModel {
        language: language_name(((v as int / 0x1_0000_0000_0000) % 0x100) as u8),
        id: ((v as int / 0x1_0000) % 0x1_0000_0000) as u32,
        index: (v as int % 0x1_0000) as u16,
        offset_end: (v as int / 0x100_0000_0000_0000) as u16,
    }
}

/// The language byte of a 64-bit value.
pub open spec fn language_byte(v: u64) -> int {
    (v as int / 0x1_0000_0000_0000) % 0x100
}

fn code_of_language(language: &String) -> (r: u8)
    ensures
        r == language_code(language@),
{
    if *language == String::from_str("en") {
        1
    } else if *language == String::from_str("zh") {
        2
    } else if *language == String::from_str("zh_tw") {
        3
    } else if *language == String::from_str("ko") {
        4
    } else {
        0
    }
}

fn name_of_code(code: u8) -> (r: String)
    ensures
        r@ == language_name(code),
{
    if code == 1 {
        String::from_str("en")
    } else if code == 2 {
        String::from_str("zh")
    } else if code == 3 {
        String::from_str("zh_tw")
    } else if code == 4 {
        String::from_str("ko")
    } else {
        String::from_str("jp")
    }
}

impl ActivityId {
    /// Decodes a 64-bit value. Every value decodes; an unknown language code
    /// decodes to `jp`.
    pub fn from_u64(value: u64) -> (r: ActivityId)
        ensures
            r@ == decoded(value),
    {
        let offset_end = (value >> 56u64) & 0xFF;
        let lang_id = (value >> 48u64) & 0xFF;
        let id = (value >> 16u64) & 0xFFFF_FFFF;
        let index = value & 0xFFFF;
        assert(offset_end == value / 0x100_0000_0000_0000 && lang_id == (value
            / 0x1_0000_0000_0000) % 0x100 && id == (value / 0x1_0000) % 0x1_0000_0000 && index
            == value % 0x1_0000) by (bit_vector)
            requires
                offset_end == (value >> 56u64) & 0xFF,
                lang_id == (value >> 48u64) & 0xFF,
                id == (value >> 16u64) & 0xFFFF_FFFF,
                index == value & 0xFFFF,
        ;
        ActivityId {
            language: name_of_code(lang_id as u8),
            id: id as u32,
            index: index as u16,
            offset_end: offset_end as u16,
        }
    }

    /// Encodes the identifier. A range length above 255 is clamped to 255; an
    /// unknown language is encoded as `jp`.
    pub fn to_u64(&self) -> (r: u64)
        ensures
            r == encoded(self@),
    {
        let lang_id = code_of_language(&self.language) as u64;
        let offset_end: u64 = if self.offset_end > 0xFF {
            0xFF
        } else {
            self.offset_end as u64
        };
        let id = self.id as u64;
        let index = self.index as u64;
        let r = offset_end << 56u64 | lang_id << 48u64 | id << 16u64 | index;
        assert(r == offset_end * 0x100_0000_0000_0000 + lang_id * 0x1_0000_0000_0000 + id
            * 0x1_0000 + index) by (bit_vector)
            requires
                offset_end < 0x100,
                lang_id < 0x100,
                id < 0x1_0000_0000,
                index < 0x1_0000,
                r == offset_end << 56u64 | lang_id << 48u64 | id << 16u64 | index,
        ;
        r
    }
}

impl vstd::std_specs::convert::FromSpecImpl<ActivityId> for u64 {
    open spec fn obeys_from_spec() -> bool {
        true
    }

    open spec fn from_spec(v: ActivityId) -> u64 {
        encoded(v@)
    }
}

impl From<ActivityId> for u64 {
    fn from(value: ActivityId) -> (r: u64)
        ensures
            r == encoded(value@),
    {
        value.to_u64()
    }
}

/// Decoding an encoded identifier gives it back, whenever its language is one
/// of the five that the layout names and its range length fits in a byte.
pub proof fn lemma_decode_encode(m: ActivityIdModel)
    requires
        known_language(m.language),
        m.offset_end <= 255,
    ensures
        decoded(encoded(m)) == m,
{
    let o = m.offset_end as int;
    let l = language_code(m.language) as int;
    let v = o * 0x100_0000_0000_0000 + l * 0x1_0000_0000_0000 + m.id as int * 0x1_0000
        + m.index as int;
    assert(0 <= v < 0x1_0000_0000_0000_0000);
    assert(v / 0x100_0000_0000_0000 == o);
    assert(v / 0x1_0000_0000_0000 == o * 0x100 + l);
    assert((o * 0x100 + l) % 0x100 == l);
    assert(v / 0x1_0000 == (o * 0x100 + l) * 0x1_0000_0000 + m.id as int);
    assert(((o * 0x100 + l) * 0x1_0000_0000 + m.id as int) % 0x1_0000_0000 == m.id as int);
    assert(v % 0x1_0000 == m.index as int);
    lemma_language_names_distinct();
    assert(language_name(language_code(m.language)) == m.language);
}

proof fn lemma_language_names_distinct()
    ensures
        "jp"@ != "en"@,
        "jp"@ != "zh"@,
        "jp"@ != "zh_tw"@,
        "jp"@ != "ko"@,
        "en"@ != "zh"@,
        "en"@ != "zh_tw"@,
        "en"@ != "ko"@,
        "zh"@ != "zh_tw"@,
        "zh"@ != "ko"@,
        "zh_tw"@ != "ko"@,
{
    reveal_strlit("jp");
    reveal_strlit("en");
    reveal_strlit("zh");
    reveal_strlit("zh_tw");
    reveal_strlit("ko");
    assert("jp"@[0] != "en"@[0]);
    assert("jp"@[0] != "zh"@[0]);
    assert("jp"@[0] != "zh_tw"@[0]);
    assert("jp"@[0] != "ko"@[0]);
    assert("en"@[0] != "zh"@[0]);
    assert("en"@[0] != "zh_tw"@[0]);
    assert("en"@[0] != "ko"@[0]);
    assert("zh"@.len() != "zh_tw"@.len());
    assert("zh"@[0] != "ko"@[0]);
    assert("zh_tw"@[0] != "ko"@[0]);
}

/// Encoding a decoded value gives it back, whenever its language byte is one
/// of the five codes that the layout names. (A value with another language
/// byte decodes to `jp` and so encodes with code 0.)
pub proof fn lemma_encode_decode(v: u64)
    requires
        language_byte(v) < 5,
    ensures
        encoded(decoded(v)) == v,
{
    let m = decoded(v);
    let x = v as int;
    let o = x / 0x100_0000_0000_0000;
    let l = (x / 0x1_0000_0000_0000) % 0x100;
    let id = (x / 0x1_0000) % 0x1_0000_0000;
    let idx = x % 0x1_0000;
    assert(o < 0x100);
    assert(x == o * 0x100_0000_0000_0000 + l * 0x1_0000_0000_0000 + id * 0x1_0000 + idx);
    lemma_language_names_distinct();
    assert(language_code(language_name(l as u8)) == l);
    assert(clamped_offset_end(m.offset_end) == o);
}

} // verus!
