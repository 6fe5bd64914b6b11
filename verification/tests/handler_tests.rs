use convcache::CacheError;
use convcache::codec::as_u32_le;
use convcache::codec::try_encode_response;
use convcache::digest::cache_key;
use convcache::handler::complete_conversion;
use convcache::handler::handle_upload;
use convcache::kind::MSFileType;
use convcache::store::CacheModel;

#[test]
fn short_payloads_never_reach_the_store() {
    let mut store = CacheModel::new();
    let empty: Vec<u8> = Vec::new();
    let one = vec![42u8];
    let k_empty = cache_key(&empty);
    let k_one = cache_key(&one);
    assert_eq!(
        handle_upload(&mut store, 0, empty, 10).map(|t| t.key),
        Err(CacheError::MalformedFrame)
    );
    assert_eq!(
        handle_upload(&mut store, 0, one, 10).map(|t| t.key),
        Err(CacheError::MalformedFrame)
    );
    assert_eq!(store.lookup(&k_empty), (false, false));
    assert_eq!(store.lookup(&k_one), (false, false));
    assert_eq!(store.scan().len(), 0);
}

#[test]
fn unknown_kind_is_rejected() {
    let mut store = CacheModel::new();
    let payload = vec![1u8, 2, 3];
    assert_eq!(
        handle_upload(&mut store, 3, payload, 10).map(|t| t.key),
        Err(CacheError::MalformedFrame)
    );
}

#[test]
fn upload_scenario_word_ten_bytes() {
    let mut store = CacheModel::new();
    let payload: Vec<u8> = (0u8..10).collect();
    let expected_key = cache_key(&payload);
    let ticket = handle_upload(&mut store, 0, payload, 1_000).unwrap();
    assert_eq!(ticket.key, expected_key);
    assert_eq!(ticket.kind, MSFileType::WORD);
    assert!(ticket.needs_conversion);
    // The payload is stored under its key, with a ledger record whose
    // creation and last-visit instants coincide.
    let scan = store.scan();
    assert_eq!(scan.len(), 1);
    assert_eq!(scan[0].0, expected_key);
    assert_eq!((scan[0].1, scan[0].2), (1_000, 1_000));
    // One conversion, then the response frame's length field matches the
    // converter's output size exactly.
    let artifact = vec![0x25u8, 0x50, 0x44, 0x46, 0x2d];
    let body = complete_conversion(&mut store, &ticket.key, Some(artifact.clone())).unwrap();
    assert_eq!(body, artifact);
    let frame = try_encode_response(&body).unwrap();
    assert_eq!(as_u32_le(&frame[0..4]) as usize, artifact.len());
    assert_eq!(&frame[4..], &artifact[..]);
}

#[test]
fn round_trip_converts_at_most_once_per_key() {
    let mut store = CacheModel::new();
    let payload = vec![9u8; 16];
    let artifact = vec![1u8, 2, 3, 4];
    let first = handle_upload(&mut store, 1, payload.clone(), 10).unwrap();
    assert!(first.needs_conversion);
    let first_body = complete_conversion(&mut store, &first.key, Some(artifact.clone())).unwrap();
    assert_eq!(first_body, artifact);
    // The same payload again: no conversion is to be triggered, and the
    // download returns the same artifact bytes.
    let second = handle_upload(&mut store, 1, payload, 20).unwrap();
    assert_eq!(second.key, first.key);
    assert!(!second.needs_conversion);
    assert_eq!(store.read_derived(&second.key), Ok(artifact));
}

#[test]
fn racing_conversions_hand_every_reader_the_first_artifact() {
    let mut store = CacheModel::new();
    let payload = vec![7u8; 8];
    let t1 = handle_upload(&mut store, 2, payload.clone(), 1).unwrap();
    let t2 = handle_upload(&mut store, 2, payload, 2).unwrap();
    // Both connections saw no artifact and both converters ran; the first
    // written artifact wins and both downloads return it.
    let b1 = complete_conversion(&mut store, &t1.key, Some(vec![11u8, 11])).unwrap();
    let b2 = complete_conversion(&mut store, &t2.key, Some(vec![22u8, 22])).unwrap();
    assert_eq!(b1, vec![11, 11]);
    assert_eq!(b2, vec![11, 11]);
}

#[test]
fn missing_converter_output_is_conversion_failed() {
    let mut store = CacheModel::new();
    let payload = vec![5u8; 4];
    let ticket = handle_upload(&mut store, 0, payload, 1).unwrap();
    assert_eq!(
        complete_conversion(&mut store, &ticket.key, None),
        Err(CacheError::ConversionFailed)
    );
    // The artifact can still be produced by a later attempt.
    assert_eq!(
        complete_conversion(&mut store, &ticket.key, Some(vec![1u8])),
        Ok(vec![1u8])
    );
}

#[test]
fn conversion_for_an_evicted_key_is_not_found() {
    let mut store = CacheModel::new();
    let k = vec![0x41u8; 64];
    assert_eq!(
        complete_conversion(&mut store, &k, Some(vec![1u8, 2])),
        Err(CacheError::NotFound)
    );
}

#[test]
fn upload_of_existing_key_records_a_visit() {
    let mut store = CacheModel::new();
    let payload = vec![3u8; 12];
    handle_upload(&mut store, 0, payload.clone(), 100).unwrap();
    handle_upload(&mut store, 0, payload, 250).unwrap();
    let scan = store.scan();
    assert_eq!(scan.len(), 1);
    assert_eq!((scan[0].1, scan[0].2), (100, 250));
}

#[test]
fn wire_kinds_resolve_and_name_themselves() {
    assert_eq!(MSFileType::from_wire(0), Some(MSFileType::WORD));
    assert_eq!(MSFileType::from_wire(1), Some(MSFileType::EXCEL));
    assert_eq!(MSFileType::from_wire(2), Some(MSFileType::PPT));
    assert_eq!(MSFileType::from_wire(7), None);
    assert_eq!(MSFileType::WORD.name(), "WORD");
    assert_eq!(MSFileType::EXCEL.name(), "EXCEL");
    assert_eq!(MSFileType::PPT.name(), "PPT");
    assert_eq!(MSFileType::WORD.wire_value(), 0);
}
