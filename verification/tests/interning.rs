//! Behaviour of the four interning tables on concrete identifiers.

use short_id::short::Data;
use short_id::DataError;

#[test]
fn event_id_roundtrip() {
    let mut data = Data::new();
    let event_id = b"$h29iv0s8:example.com";
    let short = data.get_or_create_shorteventid(event_id).unwrap();
    let back = data.get_eventid_from_short(short).unwrap();
    assert_eq!(back, event_id.to_vec());
}

#[test]
fn event_id_roundtrip_survives_other_interning() {
    let mut data = Data::new();
    let event_id = b"$h29iv0s8:example.com";
    let short = data.get_or_create_shorteventid(event_id).unwrap();
    data.get_or_create_shorteventid(b"$other1:example.com").unwrap();
    data.get_or_create_shortroomid(b"!room:example.com").unwrap();
    data.get_or_create_shortstatekey(b"m.room.member", b"@bob:example.com").unwrap();
    data.get_or_create_shortstatehash(&[7u8; 32]).unwrap();
    data.get_or_create_shorteventid(b"$other2:example.com").unwrap();
    let back = data.get_eventid_from_short(short).unwrap();
    assert_eq!(back, event_id.to_vec());
}

#[test]
fn event_id_idempotent() {
    let mut data = Data::new();
    let first = data.get_or_create_shorteventid(b"$a:example.com").unwrap();
    let minted = data.current_count();
    let second = data.get_or_create_shorteventid(b"$a:example.com").unwrap();
    assert_eq!(first, second);
    // no new id was minted by the repeat call
    assert_eq!(minted, data.current_count());
}

#[test]
fn event_id_injective() {
    let mut data = Data::new();
    let s1 = data.get_or_create_shorteventid(b"$a:example.com").unwrap();
    let s2 = data.get_or_create_shorteventid(b"$b:example.com").unwrap();
    let s3 = data.get_or_create_shorteventid(b"$c:example.com").unwrap();
    assert_ne!(s1, s2);
    assert_ne!(s1, s3);
    assert_ne!(s2, s3);
}

#[test]
fn event_id_repeated_calls_one_id() {
    let mut data = Data::new();
    let mut ids = Vec::new();
    for _ in 0..8 {
        ids.push(data.get_or_create_shorteventid(b"$same:example.com").unwrap());
    }
    for id in &ids {
        assert_eq!(*id, ids[0]);
    }
    assert_eq!(data.current_count(), 1);
}

#[test]
fn short_ids_stored_big_endian() {
    let mut data = Data::new();
    let short = data.get_or_create_shorteventid(b"$a:example.com").unwrap();
    assert_eq!(short, 1);
    let stored = data.eventid_shorteventid.get(b"$a:example.com").unwrap();
    assert_eq!(stored, vec![0u8, 0, 0, 0, 0, 0, 0, 1]);
}

#[test]
fn batch_positional_correspondence() {
    let mut data = Data::new();
    let a = b"$a:example.com".to_vec();
    let b = b"$b:example.com".to_vec();
    let batch = vec![a.clone(), b.clone(), a.clone()];
    let shorts = data.multi_get_or_create_shorteventid(&batch).unwrap();
    assert_eq!(shorts.len(), 3);
    assert_eq!(shorts[0], shorts[2]);
    assert_ne!(shorts[0], shorts[1]);
    // only two ids were minted, not three
    assert_eq!(data.current_count(), 2);
    // and the single calls agree with the batch
    assert_eq!(data.get_or_create_shorteventid(&a).unwrap(), shorts[0]);
    assert_eq!(data.get_or_create_shorteventid(&b).unwrap(), shorts[1]);
}

#[test]
fn batch_reuses_existing_entries() {
    let mut data = Data::new();
    let a = b"$a:example.com".to_vec();
    let pre = data.get_or_create_shorteventid(&a).unwrap();
    let batch = vec![b"$new:example.com".to_vec(), a.clone()];
    let shorts = data.multi_get_or_create_shorteventid(&batch).unwrap();
    assert_eq!(shorts[1], pre);
    assert_eq!(data.current_count(), 2);
}

#[test]
fn batch_empty_input() {
    let mut data = Data::new();
    let shorts = data.multi_get_or_create_shorteventid(&Vec::new()).unwrap();
    assert!(shorts.is_empty());
    assert_eq!(data.current_count(), 0);
}

#[test]
fn statekey_roundtrip() {
    let mut data = Data::new();
    let short = data.get_or_create_shortstatekey(b"m.room.member", b"@alice:example.org").unwrap();
    let (event_type, state_key) = data.get_statekey_from_short(short).unwrap();
    assert_eq!(event_type, b"m.room.member".to_vec());
    assert_eq!(state_key, b"@alice:example.org".to_vec());
}

#[test]
fn statekey_lookup_miss_is_not_an_error() {
    let mut data = Data::new();
    assert_eq!(data.get_shortstatekey(b"m.room.name", b""), Ok(None));
    let short = data.get_or_create_shortstatekey(b"m.room.name", b"").unwrap();
    assert_eq!(data.get_shortstatekey(b"m.room.name", b""), Ok(Some(short)));
}

#[test]
fn statekey_idempotent() {
    let mut data = Data::new();
    let first = data.get_or_create_shortstatekey(b"m.room.topic", b"").unwrap();
    let second = data.get_or_create_shortstatekey(b"m.room.topic", b"").unwrap();
    assert_eq!(first, second);
    assert_eq!(data.current_count(), 1);
}

#[test]
fn statekey_distinguishes_type_and_key() {
    let mut data = Data::new();
    let s1 = data.get_or_create_shortstatekey(b"m.room.member", b"@a:x.org").unwrap();
    let s2 = data.get_or_create_shortstatekey(b"m.room.member", b"@b:x.org").unwrap();
    let s3 = data.get_or_create_shortstatekey(b"m.room.name", b"@a:x.org").unwrap();
    assert_ne!(s1, s2);
    assert_ne!(s1, s3);
    assert_ne!(s2, s3);
}

#[test]
fn statehash_existence_flag() {
    let mut data = Data::new();
    let hash = [42u8; 32];
    let (first, existed_first) = data.get_or_create_shortstatehash(&hash).unwrap();
    assert!(!existed_first);
    let (second, existed_second) = data.get_or_create_shortstatehash(&hash).unwrap();
    assert!(existed_second);
    assert_eq!(first, second);
    assert_eq!(data.current_count(), 1);
}

#[test]
fn roomid_forward_only() {
    let mut data = Data::new();
    assert_eq!(data.get_shortroomid(b"!room:example.com"), Ok(None));
    let short = data.get_or_create_shortroomid(b"!room:example.com").unwrap();
    assert_eq!(data.get_shortroomid(b"!room:example.com"), Ok(Some(short)));
    let again = data.get_or_create_shortroomid(b"!room:example.com").unwrap();
    assert_eq!(short, again);
    assert_eq!(data.current_count(), 1);
}

#[test]
fn ids_unique_across_tables() {
    let mut data = Data::new();
    let e = data.get_or_create_shorteventid(b"$a:example.com").unwrap();
    let r = data.get_or_create_shortroomid(b"!r:example.com").unwrap();
    let k = data.get_or_create_shortstatekey(b"m.room.member", b"@a:x.org").unwrap();
    let (h, _) = data.get_or_create_shortstatehash(&[1u8; 32]).unwrap();
    assert_ne!(e, r);
    assert_ne!(e, k);
    assert_ne!(e, h);
    assert_ne!(r, k);
    assert_ne!(r, h);
    assert_ne!(k, h);
}

#[test]
fn corrupt_forward_value_detected_on_get_or_create() {
    let mut data = Data::new();
    // a 4-byte value where an 8-byte short id must be
    data.eventid_shorteventid.insert(b"$bad:example.com", &[0u8, 0, 0, 1]);
    assert_eq!(
        data.get_or_create_shorteventid(b"$bad:example.com"),
        Err(DataError::CorruptData)
    );
}

#[test]
fn corrupt_forward_value_detected_on_lookup() {
    let mut data = Data::new();
    data.roomid_shortroomid.insert(b"!bad:example.com", &[1u8, 2, 3, 4]);
    assert_eq!(data.get_shortroomid(b"!bad:example.com"), Err(DataError::CorruptData));
    data.statekey_shortstatekey.insert(b"m.room.member\xffx", &[9u8; 3]);
    assert_eq!(
        data.get_shortstatekey(b"m.room.member", b"x"),
        Err(DataError::CorruptData)
    );
}

#[test]
fn corrupt_forward_value_detected_in_batch() {
    let mut data = Data::new();
    data.eventid_shorteventid.insert(b"$bad:example.com", &[0u8; 4]);
    let batch = vec![b"$good:example.com".to_vec(), b"$bad:example.com".to_vec()];
    assert_eq!(data.multi_get_or_create_shorteventid(&batch), Err(DataError::CorruptData));
}

#[test]
fn corrupt_statehash_value_detected() {
    let mut data = Data::new();
    data.statehash_shortstatehash.insert(&[5u8; 32], &[1u8, 2]);
    assert_eq!(data.get_or_create_shortstatehash(&[5u8; 32]), Err(DataError::CorruptData));
}

#[test]
fn missing_reverse_event_entry_is_corrupt() {
    let data = Data::new();
    assert_eq!(data.get_eventid_from_short(7), Err(DataError::CorruptData));
}

#[test]
fn invalid_event_id_text_is_corrupt() {
    let mut data = Data::new();
    // reverse entry whose bytes do not parse as an event identifier
    data.shorteventid_eventid.insert(&[0u8, 0, 0, 0, 0, 0, 0, 9], b"no-sigil.example.com");
    assert_eq!(data.get_eventid_from_short(9), Err(DataError::CorruptData));
    // and one whose bytes are not text at all
    data.shorteventid_eventid.insert(&[0u8, 0, 0, 0, 0, 0, 0, 10], &[0xff, 0xfe, b'$']);
    assert_eq!(data.get_eventid_from_short(10), Err(DataError::CorruptData));
}

#[test]
fn missing_reverse_statekey_entry_is_corrupt() {
    let data = Data::new();
    assert_eq!(data.get_statekey_from_short(3), Err(DataError::CorruptData));
}

#[test]
fn statekey_without_delimiter_is_corrupt() {
    let mut data = Data::new();
    data.shortstatekey_statekey.insert(&[0u8, 0, 0, 0, 0, 0, 0, 4], b"m.room.member-only");
    assert_eq!(data.get_statekey_from_short(4), Err(DataError::CorruptData));
}

#[test]
fn statekey_with_non_text_segment_is_corrupt() {
    let mut data = Data::new();
    // 0xFE is not valid UTF-8, so the second segment is not text
    data.shortstatekey_statekey.insert(&[0u8, 0, 0, 0, 0, 0, 0, 5], &[b'm', 0xff, 0xfe]);
    assert_eq!(data.get_statekey_from_short(5), Err(DataError::CorruptData));
}

#[test]
fn empty_identifiers_are_distinct_keys() {
    let mut data = Data::new();
    let s1 = data.get_or_create_shortroomid(b"").unwrap();
    let s2 = data.get_or_create_shortstatekey(b"", b"").unwrap();
    assert_ne!(s1, s2);
    let (t, k) = data.get_statekey_from_short(s2).unwrap();
    assert!(t.is_empty());
    assert!(k.is_empty());
}
