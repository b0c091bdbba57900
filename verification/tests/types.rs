use tag_catalog::bitmask::Bitmask;
use tag_catalog::decimal::{i64_to_text, parse_i32, parse_i64};
use tag_catalog::payload::{texts_of, BadColumnType, ColumnValue, JsonValue};
use tag_catalog::tags::{BotTags, Flag, IntoFilter, PackTags, Registry};
use tag_catalog::types::invite::{address_of_invite, InviteError};
use tag_catalog::types::timestamp::TimeError;
use tag_catalog::types::unicode_aware::TextError;
use tag_catalog::types::{
    DiscordInvite, IntError, ItemSet, JsSafeBigInt, JsSafeInt, MaybeMissing, NormalisingString,
    PossibleInt, Timestamp,
};

fn text(s: &str) -> Option<JsonValue> {
    Some(JsonValue::Text(s.to_string()))
}

#[allow(clippy::invisible_characters)]
#[test]
fn test_raw_length_handling() {
    let thing = "\u{200b}\u{200b}\u{200b}\u{200b}\u{200b} hi \u{200b}\u{200b}";

    let s = NormalisingString::<5, 20, true>::parse_from_json(text(thing));
    assert!(s.is_err(), "Expected length validation to fail");
}

#[allow(clippy::invisible_characters)]
#[test]
fn test_normalised_length_handling() {
    let thing = "hi \u{200b}";

    let s = NormalisingString::<8, 20, true>::parse_from_json(text(thing));
    assert!(s.is_err(), "Expected length validation to fail");
}

#[allow(clippy::invisible_characters)]
#[test]
fn test_no_unicode() {
    let thing = "hi ";

    let s = NormalisingString::<2, 20, true>::parse_from_json(text(thing));
    assert!(s.is_ok(), "Expected successful parse");
}

#[test]
fn normalising_string_keeps_both_forms() {
    let s = NormalisingString::<0, 100, true>::from("  Ærøskøbing \u{200b} ");
    assert_eq!(s.as_raw(), "Ærøskøbing \u{200b}");
    assert_eq!(s.as_normalized(), "AEroskobing");
    assert_eq!(s.as_ref(), "Ærøskøbing \u{200b}");
    assert_eq!(s.to_json(), JsonValue::Text("Ærøskøbing \u{200b}".to_string()));
    let n = NormalisingString::<0, 100, false>::from("  Ærøskøbing ");
    assert_eq!(n.as_ref(), "AEroskobing");
}

#[test]
fn normalising_string_names_the_limit_that_was_broken() {
    let err = |r: Result<NormalisingString<3, 6, true>, TextError>| r.err();
    assert_eq!(err(NormalisingString::parse_from_json(None)), Some(TextError::NotAString));
    assert_eq!(
        err(NormalisingString::parse_from_json(Some(JsonValue::Integer(5)))),
        Some(TextError::NotAString)
    );
    assert_eq!(err(NormalisingString::parse_from_json(text("ab"))), Some(TextError::NormalisedTooShort));
    assert_eq!(err(NormalisingString::parse_from_json(text("abcdefg"))), Some(TextError::NormalisedTooLong));
    // Three characters that read as nothing: long enough as written, too short in ASCII.
    assert_eq!(
        err(NormalisingString::parse_from_json(text("\u{200b}\u{200b}\u{200b}"))),
        Some(TextError::NormalisedTooShort)
    );
    // "北" reads as "Bei": 3 bytes both ways.
    assert_eq!(err(NormalisingString::parse_from_json(text("北"))), None);
    // Six bytes in ASCII, eight as written.
    assert_eq!(err(NormalisingString::parse_from_json(text("abcdéé"))), Some(TextError::RawTooLong));
    // Lengths are counted after trimming.
    assert_eq!(err(NormalisingString::parse_from_json(text("   abc      "))), None);
    assert_eq!(err(NormalisingString::parse_from_json(text("abcdef"))), None);
    assert_eq!(err(NormalisingString::parse_from_json(text("abc"))), None);
    // Two bytes as written, three in ASCII.
    let half = NormalisingString::<3, 6, true>::from("½");
    assert_eq!(half.as_normalized(), "1/2");
    assert_eq!(half.as_raw(), "½");
    assert_eq!(err(NormalisingString::parse_from_json(text("½"))), Some(TextError::RawTooShort));
    let short = NormalisingString::<3, 6, true>::from("ß");
    assert_eq!(short.length_fault(), Some(TextError::NormalisedTooShort));
    let raw_short = NormalisingString::<3, 6, true>::from("北a");
    assert_eq!(raw_short.as_normalized(), "Bei a");
    assert_eq!(raw_short.length_fault(), None);
}

#[test]
fn normalising_string_from_storage() {
    let ok = NormalisingString::<5, 6, true>::from_cql(&ColumnValue::Text(" a ".into())).unwrap();
    assert_eq!(ok.as_raw(), "a");
    let ascii = NormalisingString::<0, 6, true>::from_cql(&ColumnValue::Ascii("b".into())).unwrap();
    assert_eq!(ascii.as_normalized(), "b");
    assert!(NormalisingString::<0, 6, true>::from_cql(&ColumnValue::Int(1)).is_err());
}

#[test]
fn big_int_reads_text_and_numbers() {
    assert_eq!(JsSafeBigInt::from_str("-9223372036854775808"), Ok(JsSafeBigInt(i64::MIN)));
    assert_eq!(JsSafeBigInt::from_str("+17"), Ok(JsSafeBigInt(17)));
    assert_eq!(JsSafeBigInt::from_str("9223372036854775808"), Err(IntError::Unparsable));
    assert_eq!(JsSafeBigInt::from_str(" 1"), Err(IntError::Unparsable));
    assert_eq!(JsSafeBigInt::from_str(""), Err(IntError::Unparsable));
    assert_eq!(JsSafeBigInt::parse_from_json(text("42")), Ok(JsSafeBigInt(42)));
    assert_eq!(JsSafeBigInt::parse_from_json(text("4.2")), Err(IntError::Unparsable));
    assert_eq!(JsSafeBigInt::parse_from_json(Some(JsonValue::Integer(-7))), Ok(JsSafeBigInt(-7)));
    assert_eq!(JsSafeBigInt::parse_from_json(Some(JsonValue::Number)), Err(IntError::NotAnInteger));
    assert_eq!(JsSafeBigInt::parse_from_json(Some(JsonValue::Null)), Err(IntError::NotAnInteger));
    assert_eq!(JsSafeBigInt::parse_from_json(None), Err(IntError::NotAnInteger));
    assert_eq!(JsSafeBigInt::from_possible(&PossibleInt::Int(5)), Ok(JsSafeBigInt(5)));
    assert_eq!(JsSafeBigInt::from_possible(&PossibleInt::Str("6".into())), Ok(JsSafeBigInt(6)));
    assert_eq!(JsSafeBigInt::from_possible(&PossibleInt::Str("x".into())), Err(IntError::Unparsable));
    assert_eq!(JsSafeBigInt::from(9), JsSafeBigInt(9));
    assert_eq!(JsSafeBigInt::default(), JsSafeBigInt(0));
}

#[test]
fn numbers_are_read_as_std_reads_them() {
    let texts = [
        "", "-", "+", "0", "-0", "+0", "00", "007", "-007", "+-1", "--1", "1-", "1 ", " 1", "1_0",
        "12a", "٣", "１", "9223372036854775807", "9223372036854775808", "-9223372036854775808",
        "-9223372036854775809", "+9223372036854775807", "00000000000000000000000000000000017",
        "99999999999999999999999999999999999999999999", "18446744073709551616", "2147483647",
        "2147483648", "-2147483648", "-2147483649", "1e3", "0x10", "1.0", "١٢", "-+1",
    ];
    for text in texts {
        assert_eq!(parse_i64(text), text.parse::<i64>().ok(), "{:?}", text);
        assert_eq!(parse_i32(text), text.parse::<i32>().ok(), "{:?}", text);
    }
    let numbers = [
        0, 1, -1, 9, 10, -10, 99, 100, 101, 1234567890, -1234567890, i64::MAX, i64::MIN,
        i64::MAX - 1, i64::MIN + 1, 1000000000000000000, -1000000000000000000,
    ];
    for n in numbers {
        assert_eq!(i64_to_text(n), n.to_string());
        assert_eq!(parse_i64(&i64_to_text(n)), Some(n));
    }
}

#[test]
fn big_int_is_written_as_text() {
    assert_eq!(JsSafeBigInt(9007199254740993).to_json(), JsonValue::Text("9007199254740993".into()));
    assert_eq!(JsSafeBigInt(-1).to_text(), "-1");
    assert_eq!(JsSafeBigInt(0).to_text(), "0");
}

#[test]
fn big_int_from_storage() {
    assert_eq!(JsSafeBigInt::from_cql(&ColumnValue::BigInt(3)), Ok(JsSafeBigInt(3)));
    assert_eq!(JsSafeBigInt::from_cql(&ColumnValue::Counter(-3)), Ok(JsSafeBigInt(-3)));
    assert_eq!(JsSafeBigInt::from_cql(&ColumnValue::Int(3)), Err(BadColumnType));
    assert_eq!(JsSafeBigInt::from_cql(&ColumnValue::Text("3".into())), Err(BadColumnType));
}

#[test]
fn int_reads_text_and_numbers() {
    assert_eq!(JsSafeInt::from_str("2147483647"), Ok(JsSafeInt(i32::MAX)));
    assert_eq!(JsSafeInt::from_str("2147483648"), Err(IntError::Unparsable));
    assert_eq!(JsSafeInt::parse_from_json(text("-12")), Ok(JsSafeInt(-12)));
    assert_eq!(JsSafeInt::parse_from_json(Some(JsonValue::Integer(12))), Ok(JsSafeInt(12)));
    assert_eq!(JsSafeInt::parse_from_json(Some(JsonValue::Bool(true))), Err(IntError::NotAnInteger));
    assert_eq!(JsSafeInt::parse_from_json(None), Err(IntError::NotAnInteger));
    assert_eq!(JsSafeInt(-4).to_json(), JsonValue::Integer(-4));
    assert_eq!(JsSafeInt::from_cql(&ColumnValue::Int(8)), Ok(JsSafeInt(8)));
    assert_eq!(JsSafeInt::from_cql(&ColumnValue::BigInt(8)), Err(BadColumnType));
}

#[test]
fn int_keeps_the_low_bits_of_a_wide_number() {
    let wide = (1i64 << 32) + 5;
    assert_eq!(JsSafeInt::parse_from_json(Some(JsonValue::Integer(wide))), Ok(JsSafeInt(5)));
    assert_eq!(JsSafeInt::from_possible(&PossibleInt::Int(wide)), Ok(JsSafeInt(5)));
    assert_eq!(JsSafeInt::from_possible(&PossibleInt::Int(2147483648)), Ok(JsSafeInt(i32::MIN)));
    assert_eq!(JsSafeInt::from_possible(&PossibleInt::Int(-1)), Ok(JsSafeInt(-1)));
    assert_eq!(JsSafeInt::from_possible(&PossibleInt::Str("77".into())), Ok(JsSafeInt(77)));
}

#[test]
fn invite_prefixes() {
    assert_eq!(address_of_invite("discord.gg/abc"), Some("https://discord.gg/abc".to_string()));
    assert_eq!(address_of_invite("https://discord.gg/abc"), Some("https://discord.gg/abc".to_string()));
    assert_eq!(address_of_invite("https://discord.com/invite/abc"), Some("https://discord.com/invite/abc".to_string()));
    assert_eq!(address_of_invite("http://discord.gg/abc"), None);
    assert_eq!(address_of_invite("discord.com/abc"), None);
    assert_eq!(address_of_invite(""), None);
    assert_eq!(address_of_invite("discord.g"), None);
}

#[test]
fn invite_from_json_and_storage() {
    let invite = DiscordInvite::parse_from_json(text("discord.gg/abc")).unwrap();
    assert_eq!(invite.as_str(), "https://discord.gg/abc");
    assert_eq!(invite.to_json(), JsonValue::Text("https://discord.gg/abc".into()));
    assert_eq!(invite.0.domain, Some("discord.gg".to_string()));
    assert_eq!(DiscordInvite::parse_from_json(text("example.com/x")), Err(InviteError::WrongPrefix));
    assert_eq!(DiscordInvite::parse_from_json(None), Err(InviteError::Invalid));
    assert_eq!(DiscordInvite::parse_from_json(Some(JsonValue::Null)), Err(InviteError::Invalid));
    assert_eq!(
        DiscordInvite::parse_from_json(text("https://discord.gg:port/")),
        Err(InviteError::Unparsable)
    );
    assert!(DiscordInvite::from_str("mailto:someone@example.com").is_ok());
    assert_eq!(DiscordInvite::from_str("nothing"), Err(InviteError::Unparsable));
    assert_eq!(
        DiscordInvite::from_cql(&ColumnValue::Text("https://discord.gg/abc".into())),
        Ok(invite.clone())
    );
    assert_eq!(DiscordInvite::from_cql(&ColumnValue::Text("abc".into())), Err(BadColumnType));
    assert_eq!(DiscordInvite::from_cql(&ColumnValue::Int(1)), Err(BadColumnType));
    assert_eq!(Ok(DiscordInvite::default()), DiscordInvite::from_str("https://discordlist.gg/"));
}

#[test]
fn maybe_missing() {
    let given: MaybeMissing<u8> = MaybeMissing::from_parsed(Some(Ok::<u8, ()>(3))).unwrap();
    assert_eq!(given.as_raw_value(), Some(&3));
    let absent: Result<MaybeMissing<u8>, ()> = MaybeMissing::from_parsed(None);
    assert_eq!(absent, Ok(MaybeMissing::Missing));
    assert_eq!(MaybeMissing::<u8>::Missing.as_raw_value(), None);
    let failed: Result<MaybeMissing<u8>, &str> = MaybeMissing::from_parsed(Some(Err("bad")));
    assert_eq!(failed, Err("bad"));
    assert_eq!(MaybeMissing::<u8>::default(), MaybeMissing::Missing);
}

#[test]
fn item_set() {
    let mut set: ItemSet<u32> = ItemSet::default();
    assert!(set.is_empty());
    set.push(1);
    set.push(1);
    set.insert_no_dupe(1);
    set.insert_no_dupe(2);
    set.insert_no_dupe(2);
    assert_eq!(set.0, vec![1, 1, 2]);
    assert!(set.contains(&2));
    assert!(!set.contains(&3));
    set.as_mut().clear();
    assert!(set.is_empty());
    let names = ItemSet::from(vec!["a".to_string()]);
    assert!(names.contains(&"a".to_string()));
    assert!(!names.contains(&"b".to_string()));
}

#[test]
fn timestamp_reads_seconds_and_text() {
    assert_eq!(Timestamp::from(5), Timestamp { secs: 5, nanos: 0 });
    assert_eq!(
        Timestamp::from_str("2014-11-28T21:00:09.5+09:00"),
        Ok(Timestamp { secs: 1417176009, nanos: 500_000_000 })
    );
    assert_eq!(Timestamp::from_str("1970-01-01 00:00:00Z"), Ok(Timestamp { secs: 0, nanos: 0 }));
    assert_eq!(Timestamp::from_str("yesterday"), Err(TimeError::Unparsable));
    assert_eq!(Timestamp::parse_from_json(Some(JsonValue::Integer(-1))), Ok(Timestamp::from(-1)));
    assert_eq!(Timestamp::parse_from_json(text("1970-01-01T00:00:01Z")), Ok(Timestamp::from(1)));
    assert_eq!(Timestamp::parse_from_json(text("1")), Err(TimeError::Unparsable));
    assert_eq!(Timestamp::parse_from_json(Some(JsonValue::Number)), Err(TimeError::Invalid));
    assert_eq!(Timestamp::parse_from_json(None), Err(TimeError::Invalid));
    assert_eq!(Timestamp::from_possible(&PossibleInt::Int(9)), Ok(Timestamp::from(9)));
    assert_eq!(
        Timestamp::from_possible(&PossibleInt::Str("1970-01-01T00:01:00Z".into())),
        Ok(Timestamp::from(60))
    );
}

#[test]
fn timestamp_is_written_as_rfc3339() {
    assert_eq!(Timestamp::from(0).to_rfc3339(), Some("1970-01-01T00:00:00+00:00".to_string()));
    assert_eq!(
        Timestamp { secs: 1417176009, nanos: 500_000_000 }.to_json(),
        Some(JsonValue::Text("2014-11-28T12:00:09.500+00:00".to_string()))
    );
    assert_eq!(Timestamp::from(i64::MAX).to_rfc3339(), None);
    assert_eq!(Timestamp::from(i64::MAX).to_json(), None);
    assert_eq!(Timestamp { secs: 0, nanos: 2_000_000_000 }.to_rfc3339(), None);
}

#[test]
fn timestamp_from_storage_counts_whole_seconds() {
    assert_eq!(Timestamp::from_cql(&ColumnValue::Timestamp(1999)), Ok(Timestamp::from(1)));
    assert_eq!(Timestamp::from_cql(&ColumnValue::Timestamp(-1999)), Ok(Timestamp::from(-1)));
    assert_eq!(Timestamp::from_cql(&ColumnValue::Timestamp(-999)), Ok(Timestamp::from(0)));
    assert_eq!(
        Timestamp::from_cql(&ColumnValue::Timestamp(i64::MIN)),
        Ok(Timestamp::from(-9223372036854775))
    );
    assert_eq!(Timestamp::from_cql(&ColumnValue::Time(3_500_000_000)), Ok(Timestamp::from(3)));
    assert_eq!(Timestamp::from_cql(&ColumnValue::BigInt(1)), Err(BadColumnType));
}

#[test]
fn timestamp_in_milliseconds() {
    assert_eq!(Timestamp { secs: 2, nanos: 345_678_901 }.timestamp_millis(), Some(2345));
    assert_eq!(Timestamp { secs: -2, nanos: 1_000_000 }.timestamp_millis(), Some(-1999));
    assert_eq!(Timestamp::from(i64::MAX).timestamp_millis(), None);
    assert_eq!(Timestamp::from(i64::MIN).timestamp_millis(), None);
    assert_eq!(
        Timestamp { secs: 9223372036854775, nanos: 807_000_000 }.timestamp_millis(),
        Some(i64::MAX)
    );
    assert_eq!(Timestamp { secs: 9223372036854775, nanos: 808_000_000 }.timestamp_millis(), None);
}

#[test]
fn json_and_column_readers() {
    let list = JsonValue::List(vec![JsonValue::Text("a".into()), JsonValue::Text("b".into())]);
    assert_eq!(list.as_strings(), Some(vec!["a".to_string(), "b".to_string()]));
    assert_eq!(JsonValue::List(vec![]).as_strings(), Some(vec![]));
    assert_eq!(JsonValue::List(vec![JsonValue::Null]).as_strings(), None);
    assert_eq!(JsonValue::Text("a".into()).as_strings(), None);
    assert_eq!(JsonValue::strings(&vec!["a".to_string(), "b".to_string()]), list);
    assert_eq!(JsonValue::Text("x".to_string()).as_str(), Some("x"));
    assert_eq!(JsonValue::Integer(3).as_str(), None);
    assert_eq!(JsonValue::Integer(3).as_i64(), Some(3));
    assert_eq!(JsonValue::Text("3".into()).as_i64(), None);
    assert_eq!(ColumnValue::Text("t".into()).as_text(), Some(&"t".to_string()));
    assert_eq!(ColumnValue::Ascii("t".into()).as_text(), None);
    assert_eq!(ColumnValue::Ascii("t".into()).as_string(), Some(&"t".to_string()));
    assert_eq!(ColumnValue::Other.as_string(), None);
    let items = vec![
        ColumnValue::Int(1),
        ColumnValue::Text("x".into()),
        ColumnValue::Ascii("y".into()),
        ColumnValue::Text("z".into()),
    ];
    assert_eq!(texts_of(&items), vec!["x".to_string(), "z".to_string()]);
}

#[test]
fn filter_clauses() {
    let lookup = Registry::from_entries(vec![
        ("Music".to_string(), Flag::new(Bitmask::from_u64(1), "M".into(), "audio".into())),
        ("Utility".to_string(), Flag::new(Bitmask::from_u64(2), String::new(), String::new())),
    ]);
    let many = BotTags::from_raw(&vec!["Utility".to_string(), "Music".to_string()], &lookup);
    assert_eq!(
        many.into_filter(),
        vec![
            "tags = VisibleTag { name: \"Utility\", display_name: \"\", category: \"\" }".to_string(),
            "tags = VisibleTag { name: \"Music\", display_name: \"M\", category: \"audio\" }".to_string(),
        ]
    );
    let one = PackTags::from_name("music", &lookup);
    assert_eq!(
        one.into_filter(),
        vec!["tags = VisibleTag { name: \"Music\", display_name: \"M\", category: \"audio\" }".to_string()]
    );
    assert!(PackTags::default().into_filter().is_empty());
    assert!(BotTags::default().into_filter().is_empty());
}
