use tag_catalog::bitmask::Bitmask;
use tag_catalog::payload::{ColumnValue, JsonValue};
use tag_catalog::tags::codec::{column_of_mask, decode, encode, mask_of_column};
use tag_catalog::tags::store::RegistryStore;
use tag_catalog::text::{
    compare_names, first_equal, same_name, starts_with, trim, NameOrder,
};
use tag_catalog::tags::handler::filter_clause;
use tag_catalog::tags::{
    filter_valid_tags, get_tag, validate_tags, BotTags, Flag, IntoFilter, MalformedPayloadError,
    PackTags,
    Registry, TagError, UnknownTagError, VisibleTag,
};

fn flag(bits: u64, category: &str) -> Flag {
    Flag::new(Bitmask::from_u64(bits), String::new(), category.to_string())
}

fn deprecated(bits: u64) -> Flag {
    Flag {
        bit_weight: Bitmask::from_u64(bits),
        deprecated: true,
        display_name: String::new(),
        category: String::new(),
    }
}

/// Music: 1, Moderation: 2, Utility: 4, none deprecated.
fn catalog() -> Registry {
    Registry::from_entries(vec![
        ("Music".to_string(), flag(1, "")),
        ("Moderation".to_string(), flag(2, "")),
        ("Utility".to_string(), flag(4, "")),
    ])
}

fn pack_catalog() -> Registry {
    let entry = |label: &str| Flag::new(Bitmask::zero(), label.to_string(), String::new());
    Registry::from_entries(vec![
        ("music".to_string(), entry("Music")),
        ("moderation".to_string(), entry("Moderation")),
        ("utility".to_string(), entry("Utility")),
    ])
}

fn strings(items: &[&str]) -> Vec<String> {
    items.iter().map(|s| s.to_string()).collect()
}

fn json_strings(items: &[&str]) -> JsonValue {
    JsonValue::List(items.iter().map(|s| JsonValue::Text(s.to_string())).collect())
}

fn tag(name: &str) -> VisibleTag {
    VisibleTag { name: name.to_string(), display_name: String::new(), category: String::new() }
}

#[test]
fn bots_test_setting_flags() {
    let lookup = catalog();

    let sample = json_strings(&["Music", "Hello", "Utility"]);
    assert!(BotTags::parse_from_json(Some(sample), &lookup).is_err());

    let sample = json_strings(&["Music", "Utility"]);
    let tags = BotTags::parse_from_json(Some(sample), &lookup)
        .expect("Successful parse from JSON Value.");

    assert_eq!(tags.tags(), &vec![tag("Music"), tag("Utility")]);
}

#[test]
fn bots_test_loading_flags() {
    let lookup = catalog();

    let sample = strings(&["Music", "Moderation", "Utility", "Cheese"]);

    let tags = BotTags::from_raw(&sample, &lookup);

    assert_eq!(tags.tags(), &vec![tag("Music"), tag("Moderation"), tag("Utility")]);
}

#[test]
fn packs_test_setting_flags() {
    let lookup = pack_catalog();

    let sample = JsonValue::Text("music".to_string());
    let tags = PackTags::parse_from_json(Some(sample), &lookup)
        .expect("Successful parse from JSON Value.");

    assert_eq!(
        tags.tag(),
        &Some(VisibleTag {
            name: "music".to_string(),
            display_name: "Music".to_string(),
            category: "".to_string(),
        })
    );
}

#[test]
fn packs_test_loading_flags() {
    let lookup = pack_catalog();

    let tags = PackTags::from_raw("Moderation-Does-Not_Exist".to_string(), &lookup);

    assert_eq!(tags.tag(), &None);
}

#[test]
fn decode_follows_registry_order() {
    let names = decode(&Bitmask::from_u64(7), &catalog());
    assert_eq!(names, strings(&["Moderation", "Music", "Utility"]));
}

#[test]
fn encode_and_decode_five() {
    let lookup = catalog();
    let mask = encode(&strings(&["Music", "Utility"]), &lookup);
    assert_eq!(mask.to_u64(), Some(5));
    assert_eq!(mask, Bitmask::from_u64(5));
    assert_eq!(decode(&Bitmask::from_u64(5), &lookup), strings(&["Music", "Utility"]));
}

#[test]
fn encode_after_decode_gives_the_mask_back() {
    let lookup = catalog();
    for bits in 0u64..8 {
        let mask = Bitmask::from_u64(bits);
        let again = encode(&decode(&mask, &lookup), &lookup);
        assert_eq!(again.to_u64(), Some(bits));
    }
}

#[test]
fn decode_then_encode_drops_unowned_bits() {
    let lookup = catalog();
    let mask = Bitmask::from_u64(8 + 16 + 4 + 1);
    let names = decode(&mask, &lookup);
    assert_eq!(names, strings(&["Music", "Utility"]));
    assert_eq!(encode(&names, &lookup).to_u64(), Some(5));
}

#[test]
fn overlapping_weights_do_not_round_trip() {
    let lookup = Registry::from_entries(vec![
        ("A".to_string(), flag(3, "")),
        ("B".to_string(), flag(1, "")),
    ]);
    let mask = encode(&strings(&["B"]), &lookup);
    assert_eq!(mask.to_u64(), Some(1));
    let names = decode(&mask, &lookup);
    assert_eq!(names, strings(&["A", "B"]));
    assert_eq!(encode(&names, &lookup).to_u64(), Some(3));
}

#[test]
fn encode_skips_unknown_and_deprecated_names() {
    let mut lookup = catalog();
    lookup.insert("Legacy".to_string(), deprecated(8));
    let mask = encode(&strings(&["Music", "Nonexistent", "Legacy", "music"]), &lookup);
    assert_eq!(mask.to_u64(), Some(1));
}

#[test]
fn encode_counts_a_repeated_name_once() {
    let lookup = catalog();
    let once = encode(&strings(&["Utility", "Music"]), &lookup);
    let twice = encode(&strings(&["Music", "Utility", "Music", "Utility"]), &lookup);
    assert_eq!(once, twice);
    assert_eq!(twice.to_u64(), Some(5));
}

#[test]
fn encode_of_nothing_is_zero() {
    let mask = encode(&Vec::new(), &catalog());
    assert!(mask.is_zero());
    assert_eq!(mask.to_u64(), Some(0));
    assert!(decode(&mask, &catalog()).is_empty());
}

#[test]
fn deprecated_entry_is_never_decoded() {
    let mut lookup = catalog();
    lookup.insert("Legacy".to_string(), deprecated(8));
    let names = decode(&Bitmask::from_u64(15), &lookup);
    assert_eq!(names, strings(&["Moderation", "Music", "Utility"]));
    let only = decode(&Bitmask::from_u64(8), &lookup);
    assert!(only.is_empty());
}

#[test]
fn strict_validation_names_the_unknown_value() {
    let lookup = catalog();
    let checked = validate_tags(&strings(&["Music", "Nonexistent"]), &lookup);
    assert_eq!(checked, Err(UnknownTagError { value: "Nonexistent".to_string() }));
    let held = BotTags::from_names(&strings(&["Music", "Nonexistent"]), &lookup);
    assert_eq!(held, Err(UnknownTagError { value: "Nonexistent".to_string() }));
}

#[test]
fn strict_validation_names_the_first_unknown_value() {
    let lookup = catalog();
    let checked = validate_tags(&strings(&["Zebra", "Music", "Apple"]), &lookup);
    assert_eq!(checked, Err(UnknownTagError { value: "Zebra".to_string() }));
}

#[test]
fn strict_validation_keeps_input_order_and_registry_names() {
    let lookup = catalog();
    let checked = validate_tags(&strings(&["utility", "MUSIC", "utility"]), &lookup);
    assert_eq!(checked, Ok(vec![tag("Utility"), tag("Music"), tag("Utility")]));
}

#[test]
fn lenient_validation_drops_the_unknown_value() {
    let lookup = catalog();
    let kept = filter_valid_tags(&strings(&["Music", "Nonexistent"]), &lookup);
    assert_eq!(kept, vec![tag("Music")]);
    let held = BotTags::from_raw(&strings(&["Music", "Nonexistent"]), &lookup);
    assert_eq!(held.as_raw(), strings(&["Music"]));
}

#[test]
fn lenient_validation_keeps_input_order() {
    let lookup = catalog();
    let kept = filter_valid_tags(&strings(&["Utility", "x", "Music", "Utility"]), &lookup);
    assert_eq!(kept, vec![tag("Utility"), tag("Music"), tag("Utility")]);
}

#[test]
fn lenient_validation_matches_exactly() {
    let kept = filter_valid_tags(&strings(&["music"]), &catalog());
    assert!(kept.is_empty());
}

#[test]
fn tags_carry_the_category_of_their_entry() {
    let lookup = Registry::from_entries(vec![(
        "Music".to_string(),
        Flag::new(Bitmask::from_u64(1), "Music!".to_string(), "audio".to_string()),
    )]);
    let expected = VisibleTag {
        name: "Music".to_string(),
        display_name: "Music!".to_string(),
        category: "audio".to_string(),
    };
    assert_eq!(filter_valid_tags(&strings(&["Music"]), &lookup), vec![expected.clone()]);
    assert_eq!(validate_tags(&strings(&["music"]), &lookup), Ok(vec![expected.clone()]));
    assert_eq!(PackTags::from_raw("Music".to_string(), &lookup).tag(), &Some(expected.clone()));
    assert_eq!(PackTags::from_name("MUSIC", &lookup).tag(), &Some(expected));
}

#[test]
fn singular_from_name_ignores_case() {
    let lookup = catalog();
    let held = PackTags::from_name("music", &lookup);
    assert_eq!(held.tag(), &Some(tag("Music")));
    assert_eq!(held.to_name(), Some("Music".to_string()));
    assert_eq!(held.as_raw(), Some("Music".to_string()));
}

#[test]
fn singular_from_name_of_unknown_is_empty() {
    let held = PackTags::from_name("doesnotexist", &catalog());
    assert_eq!(held.tag(), &None);
    assert_eq!(held.to_name(), None);
    assert_eq!(held.to_json(), JsonValue::Null);
}

#[test]
fn singular_json_is_strict() {
    let lookup = catalog();
    assert_eq!(
        PackTags::parse_from_json(Some(JsonValue::Text("nope".to_string())), &lookup),
        Err(TagError::UnknownTag(UnknownTagError { value: "nope".to_string() }))
    );
    assert_eq!(
        PackTags::parse_from_json(None, &lookup),
        Err(TagError::MalformedPayload(MalformedPayloadError))
    );
    let none = PackTags::parse_from_json(Some(JsonValue::Null), &lookup).unwrap();
    assert_eq!(none.as_raw(), None);
    assert_eq!(none, PackTags::default());
    assert_eq!(
        PackTags::parse_from_json(Some(JsonValue::Integer(3)), &lookup),
        Err(TagError::MalformedPayload(MalformedPayloadError))
    );
    let held = PackTags::parse_from_json(Some(JsonValue::Text("UTILITY".to_string())), &lookup)
        .unwrap();
    assert_eq!(held.to_json(), JsonValue::Text("Utility".to_string()));
}

#[test]
fn singular_from_storage() {
    let lookup = catalog();
    let held = PackTags::from_cql(&ColumnValue::Text("Music".to_string()), &lookup);
    assert_eq!(held.to_name(), Some("Music".to_string()));
    let held = PackTags::from_cql(&ColumnValue::Text("gone".to_string()), &lookup);
    assert_eq!(held.to_name(), None);
    let held = PackTags::from_cql(&ColumnValue::Int(1), &lookup);
    assert_eq!(held, PackTags::default());
}

#[test]
fn multi_json_payloads() {
    let lookup = catalog();
    assert_eq!(
        BotTags::parse_from_json(None, &lookup),
        Err(TagError::MalformedPayload(MalformedPayloadError))
    );
    assert_eq!(
        BotTags::parse_from_json(Some(JsonValue::Null), &lookup),
        Err(TagError::MalformedPayload(MalformedPayloadError))
    );
    assert_eq!(
        BotTags::parse_from_json(Some(JsonValue::Object), &lookup),
        Err(TagError::MalformedPayload(MalformedPayloadError))
    );
    assert_eq!(
        BotTags::parse_from_json(
            Some(JsonValue::List(vec![JsonValue::Text("Music".to_string()), JsonValue::Integer(1)])),
            &lookup
        ),
        Err(TagError::MalformedPayload(MalformedPayloadError))
    );
    assert_eq!(
        BotTags::parse_from_json(Some(json_strings(&["Music", "Nonexistent"])), &lookup),
        Err(TagError::UnknownTag(UnknownTagError { value: "Nonexistent".to_string() }))
    );
    let none = BotTags::parse_from_json(Some(json_strings(&[])), &lookup).unwrap();
    assert!(none.tags().is_empty());
    assert_eq!(none.to_json(), JsonValue::List(vec![]));
}

#[test]
fn multi_names_are_written_as_titles_first() {
    let lookup = Registry::from_entries(vec![
        ("Music".to_string(), flag(1, "")),
        ("Auto Moderation".to_string(), flag(2, "")),
    ]);
    let held = BotTags::from_names(&strings(&["auto_moderation", "music"]), &lookup).unwrap();
    assert_eq!(held.as_raw(), strings(&["Auto Moderation", "Music"]));
    let refused = BotTags::from_names(&strings(&["rock-music"]), &lookup);
    assert_eq!(refused, Err(UnknownTagError { value: "Rock Music".to_string() }));
}

#[test]
fn multi_bitmask_round_trip() {
    let lookup = catalog();
    let held = BotTags::from_bitmask(&Bitmask::from_u64(6), &lookup);
    assert_eq!(held.as_raw(), strings(&["Moderation", "Utility"]));
    assert_eq!(held.to_bitmask(&lookup).to_u64(), Some(6));
    assert_eq!(held.to_json(), json_strings(&["Moderation", "Utility"]));
}

#[test]
fn multi_both_storage_shapes_agree() {
    let lookup = catalog();
    let from_mask = BotTags::from_bitmask(&Bitmask::from_u64(5), &lookup);
    let column = ColumnValue::SetOf(vec![
        ColumnValue::Text("Music".to_string()),
        ColumnValue::Int(9),
        ColumnValue::Text("Utility".to_string()),
        ColumnValue::Text("Dropped".to_string()),
    ]);
    let from_set = BotTags::from_cql(&column, &lookup);
    assert_eq!(from_mask, from_set);
    let wrong_shape = BotTags::from_cql(&ColumnValue::Text("Music".to_string()), &lookup);
    assert_eq!(wrong_shape, BotTags::default());
}

#[test]
fn registry_keeps_names_unique_and_in_order() {
    let lookup = Registry::from_entries(vec![
        ("b".to_string(), flag(1, "first")),
        ("a".to_string(), flag(2, "")),
        ("B".to_string(), flag(4, "")),
        ("b".to_string(), flag(8, "second")),
        ("é".to_string(), flag(16, "")),
        ("ab".to_string(), flag(32, "")),
    ]);
    assert_eq!(lookup.len(), 5);
    let names: Vec<String> =
        (0..lookup.len()).map(|i| lookup.entry_at(i).unwrap().0.clone()).collect();
    assert!(lookup.entry_at(5).is_none());
    assert_eq!(lookup.entry_at(3).unwrap().1.category, "second");
    assert_eq!(names, strings(&["B", "a", "ab", "b", "é"]));
    assert_eq!(get_tag("b", &lookup).unwrap().category, "second");
    assert_eq!(get_tag("b", &lookup).unwrap().bit_weight.to_u64(), Some(8));
    assert!(get_tag("c", &lookup).is_none());
    assert_eq!(lookup.find("ab"), Some(2));
    assert_eq!(lookup.find_folded("AB"), Some(2));
    assert_eq!(lookup.find_folded("b"), Some(0));
}

#[test]
fn store_starts_empty_and_publishes_whole_registries() {
    let store = RegistryStore::new();
    assert_eq!(store.current().len(), 0);
    store.publish(catalog());
    assert_eq!(store.current().len(), 3);
    store.publish(Registry::new());
    assert_eq!(store.current().len(), 0);
}

#[test]
fn snapshot_outlives_a_publish() {
    let store = RegistryStore::new();
    store.publish(catalog());
    let snapshot = store.current();
    let before = decode(&Bitmask::from_u64(7), &snapshot);

    let mut next = Registry::new();
    next.insert("Games".to_string(), flag(1, ""));
    store.publish(next);

    let after = decode(&Bitmask::from_u64(7), &snapshot);
    assert_eq!(before, after);
    assert_eq!(after, strings(&["Moderation", "Music", "Utility"]));
    assert_eq!(encode(&after, &snapshot).to_u64(), Some(7));
    assert_eq!(decode(&Bitmask::from_u64(7), &store.current()), strings(&["Games"]));
}

#[test]
fn wide_masks() {
    let high = Bitmask::single_bit(130);
    assert_eq!(high.to_u64(), None);
    assert_eq!(high.limbs(), &vec![0, 0, 4]);
    let low = Bitmask::from_u64(1);
    assert!(!high.intersects(&low));
    let both = high.union(&low);
    assert!(both.intersects(&high));
    assert!(both.intersects(&low));
    assert_eq!(both, Bitmask::from_limbs(vec![1, 0, 4, 0]));
    assert_ne!(both, high);
    assert_eq!(Bitmask::from_limbs(vec![0, 0]), Bitmask::zero());
    assert!(Bitmask::from_limbs(vec![0, 0]).is_zero());
    assert_eq!(Bitmask::from_limbs(vec![9, 0]).to_u64(), Some(9));

    let lookup = Registry::from_entries(vec![
        ("Far".to_string(), Flag::new(Bitmask::single_bit(130), String::new(), String::new())),
        ("Near".to_string(), flag(1, "")),
    ]);
    assert_eq!(decode(&both, &lookup), strings(&["Far", "Near"]));
    assert_eq!(encode(&strings(&["Far"]), &lookup), high);
}

#[test]
fn masks_as_bytes() {
    let bytes = |m: &Bitmask| m.to_signed_bytes_be();
    assert_eq!(bytes(&Bitmask::zero()), vec![0]);
    assert_eq!(bytes(&Bitmask::from_limbs(vec![0, 0])), vec![0]);
    assert_eq!(bytes(&Bitmask::from_u64(5)), vec![5]);
    assert_eq!(bytes(&Bitmask::from_u64(0x7f)), vec![0x7f]);
    assert_eq!(bytes(&Bitmask::from_u64(0x80)), vec![0, 0x80]);
    assert_eq!(bytes(&Bitmask::from_u64(0x0102)), vec![1, 2]);
    assert_eq!(bytes(&Bitmask::from_u64(u64::MAX)), vec![0, 255, 255, 255, 255, 255, 255, 255, 255]);
    assert_eq!(bytes(&Bitmask::single_bit(64)), vec![1, 0, 0, 0, 0, 0, 0, 0, 0]);
    assert_eq!(
        bytes(&Bitmask::from_limbs(vec![0x0807060504030201, 0x0a09, 0])),
        vec![0x0a, 0x09, 8, 7, 6, 5, 4, 3, 2, 1]
    );

    let read = |b: &[u8]| Bitmask::from_signed_bytes_be(&b.to_vec());
    assert_eq!(read(&[]), Some(Bitmask::zero()));
    assert_eq!(read(&[0]), Some(Bitmask::zero()));
    assert_eq!(read(&[0, 0, 5]), Some(Bitmask::from_u64(5)));
    assert_eq!(read(&[0x7f]), Some(Bitmask::from_u64(0x7f)));
    assert_eq!(read(&[0x80]), None);
    assert_eq!(read(&[0xff, 0xff]), None);
    assert_eq!(read(&[0, 0x80]), Some(Bitmask::from_u64(0x80)));
    assert_eq!(read(&[1, 0, 0, 0, 0, 0, 0, 0, 0]), Some(Bitmask::single_bit(64)));
    assert_eq!(
        read(&[0x0a, 0x09, 8, 7, 6, 5, 4, 3, 2, 1]),
        Some(Bitmask::from_limbs(vec![0x0807060504030201, 0x0a09]))
    );
    for bits in [0u64, 1, 127, 128, 255, 256, 65535, 1 << 40, u64::MAX] {
        let mask = Bitmask::from_u64(bits);
        assert_eq!(read(&bytes(&mask)), Some(mask));
    }
}

#[test]
fn multi_from_a_bitmask_column() {
    let lookup = catalog();
    let names = |v: ColumnValue| BotTags::from_cql_bitmask(&v, &lookup).as_raw();
    assert_eq!(names(ColumnValue::Varint(vec![5])), strings(&["Music", "Utility"]));
    assert_eq!(names(ColumnValue::Varint(vec![0, 0x87])), strings(&["Moderation", "Music", "Utility"]));
    assert_eq!(names(ColumnValue::BigInt(6)), strings(&["Moderation", "Utility"]));
    assert_eq!(names(ColumnValue::Int(1)), strings(&["Music"]));
    assert!(names(ColumnValue::Varint(vec![0xff])).is_empty());
    assert!(names(ColumnValue::BigInt(-1)).is_empty());
    assert!(names(ColumnValue::Int(-7)).is_empty());
    assert!(names(ColumnValue::Text("5".to_string())).is_empty());
    assert!(names(ColumnValue::Varint(vec![])).is_empty());

    let held = BotTags::from_raw(&strings(&["Utility", "Music"]), &lookup);
    assert_eq!(held.to_cql_bitmask(&lookup), ColumnValue::Varint(vec![5]));
    assert_eq!(mask_of_column(&held.to_cql_bitmask(&lookup)), Some(Bitmask::from_u64(5)));
    assert_eq!(column_of_mask(&Bitmask::from_u64(200)), ColumnValue::Varint(vec![0, 200]));
    assert_eq!(mask_of_column(&ColumnValue::Other), None);
}

#[test]
fn names_are_ordered_as_strings_are() {
    let samples = [
        "", "a", "A", "ab", "abc", "b", "B", "Z", "z", "é", "e", "ée", "zz", "~", " ", "0", "10",
        "9", "Music", "music", "Moderation", "Utility", "日本", "日", "\u{10000}", "\u{ffff}",
        "\u{7f}", "\u{80}", "a\u{0}", "a\u{0}b",
    ];
    for a in samples {
        for b in samples {
            let expected = match a.cmp(b) {
                std::cmp::Ordering::Less => NameOrder::Before,
                std::cmp::Ordering::Equal => NameOrder::Same,
                std::cmp::Ordering::Greater => NameOrder::After,
            };
            assert_eq!(compare_names(a, b), expected, "{:?} against {:?}", a, b);
            assert_eq!(same_name(a, b), a == b);
            assert_eq!(starts_with(a, b), a.starts_with(b), "{:?} begins with {:?}", a, b);
        }
    }

    let lookup = Registry::from_entries(
        samples.iter().rev().map(|s| (s.to_string(), flag(1, ""))).collect(),
    );
    let by_std: std::collections::BTreeMap<String, ()> =
        samples.iter().map(|s| (s.to_string(), ())).collect();
    let names: Vec<String> =
        (0..lookup.len()).map(|i| lookup.entry_at(i).unwrap().0.clone()).collect();
    assert_eq!(names, by_std.keys().cloned().collect::<Vec<String>>());
    assert_eq!(first_equal(&names, "abc"), names.iter().position(|n| n == "abc"));
    assert_eq!(first_equal(&names, "none"), None);
}

#[test]
fn singular_json_reads_back_what_it_wrote() {
    let lookup = catalog();
    for held in [PackTags::default(), PackTags::from_name("utility", &lookup)] {
        let read = PackTags::parse_from_json(Some(held.to_json()), &lookup);
        assert_eq!(read, Ok(held));
    }
    assert_eq!(PackTags::default().to_json(), JsonValue::Null);
    assert_eq!(PackTags::parse_from_json(Some(JsonValue::List(vec![])), &lookup).ok(), None);
    assert_eq!(PackTags::parse_from_json(Some(JsonValue::Bool(false)), &lookup).ok(), None);
    assert_eq!(PackTags::parse_from_json(Some(JsonValue::Object), &lookup).ok(), None);
}

#[test]
fn into_filter_writes_the_clause_text() {
    let lookup = Registry::from_entries(vec![(
        "Music".to_string(),
        Flag::new(Bitmask::from_u64(1), "The \"M\"".to_string(), "audio".to_string()),
    )]);
    let one = VisibleTag {
        name: "Music".to_string(),
        display_name: "The \"M\"".to_string(),
        category: "audio".to_string(),
    };
    let text =
        "tags = VisibleTag { name: \"Music\", display_name: \"The \\\"M\\\"\", category: \"audio\" }";
    assert_eq!(filter_clause(&one), text);
    assert_eq!(BotTags::from_raw(&strings(&["Music"]), &lookup).into_filter(), vec![text.to_string()]);
    assert_eq!(PackTags::from_raw("Music".to_string(), &lookup).into_filter(), vec![text.to_string()]);
    assert_eq!(PackTags::default().into_filter(), Vec::<String>::new());
}

#[test]
fn bitmask_column_is_a_number_of_any_size() {
    let lookup = Registry::from_entries(vec![
        ("Far".to_string(), Flag::new(Bitmask::single_bit(71), String::new(), String::new())),
        ("Near".to_string(), flag(128, "")),
    ]);
    let held = BotTags::from_raw(&strings(&["Far", "Near"]), &lookup);
    assert_eq!(
        held.to_cql_bitmask(&lookup),
        ColumnValue::Varint(vec![0, 0x80, 0, 0, 0, 0, 0, 0, 0, 0x80])
    );
    assert_eq!(BotTags::default().to_cql_bitmask(&lookup), ColumnValue::Varint(vec![0]));
    assert_eq!(BotTags::from_cql_bitmask(&held.to_cql_bitmask(&lookup), &lookup), held);
}

#[test]
fn trimming_is_as_std_trims() {
    let samples = [
        "", " ", "a", " a", "a ", "  a b  ", "\t\n a\r\n", "\u{a0}x\u{a0}", "\u{3000}日本\u{2003}",
        "\u{200b} hi \u{200b}", "   ", "\u{85}\u{1680}", "a\u{2028}", "\u{feff}a", "x  y",
    ];
    for text in samples {
        assert_eq!(trim(text), text.trim(), "{:?}", text);
    }
}
