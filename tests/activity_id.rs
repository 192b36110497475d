use phixiv::activity_id::ActivityId;

fn id(language: &str, id: u32, index: u16, offset_end: u16) -> ActivityId {
    ActivityId { language: language.to_string(), id, index, offset_end }
}

#[test]
fn encode_places_fields_in_their_bytes() {
    let v = id("en", 0x1234_5678, 0x9abc, 3).to_u64();
    assert_eq!(v, 0x0301_1234_5678_9abc);
    assert_eq!(u64::from(id("ko", 1, 2, 0)), (4u64 << 48) | (1 << 16) | 2);
}

#[test]
fn decode_reads_fields_from_their_bytes() {
    let a = ActivityId::from_u64(0x0203_0000_0064_0005);
    assert_eq!(a.language, "zh_tw");
    assert_eq!(a.id, 100);
    assert_eq!(a.index, 5);
    assert_eq!(a.offset_end, 2);
}

#[test]
fn decode_of_encode_round_trips() {
    for lang in ["jp", "en", "zh", "zh_tw", "ko"] {
        for (i, ix, off) in [(0u32, 0u16, 0u16), (u32::MAX, u16::MAX, 255), (123456789, 7, 1)] {
            let a = ActivityId::from_u64(id(lang, i, ix, off).to_u64());
            assert_eq!(a.language, lang);
            assert_eq!((a.id, a.index, a.offset_end), (i, ix, off));
        }
    }
}

#[test]
fn encode_of_decode_round_trips_for_known_languages() {
    for v in [0u64, u64::MAX & !(0xFF << 48), 0x0104_0000_0001_0002, 0xFF00_FFFF_FFFF_FFFF] {
        assert_eq!(ActivityId::from_u64(v).to_u64(), v);
    }
}

#[test]
fn unknown_language_and_wide_range_are_clamped() {
    assert_eq!(id("fr", 1, 0, 0).to_u64(), 1 << 16);
    assert_eq!(id("jp", 0, 0, 300).to_u64() >> 56, 255);
    let a = ActivityId::from_u64(9u64 << 48);
    assert_eq!(a.language, "jp");
    assert_eq!(a.to_u64(), 0);
}
