use qomicex_core::curseforge::{file_id_batches, file_ids_request_body, fingerprint_key, fingerprints_request_body};

#[test]
fn batches_of_one_hundred_valid_ids() {
    let ids: Vec<i64> = (1..=250).collect();
    let b = file_id_batches(&ids);
    assert_eq!(b.len(), 3);
    assert_eq!(b[0].len(), 100);
    assert_eq!(b[0][0], 1);
    assert_eq!(b[1][0], 101);
    assert_eq!(b[2], (201..=250).collect::<Vec<i64>>());
}

#[test]
fn batches_drop_refused_ids_and_empty_chunks() {
    let mut ids: Vec<i64> = vec![0; 100];
    ids.push(-3);
    ids.push(7);
    ids.push(3_000_000_000);
    ids.push(2_147_483_647);
    assert_eq!(file_id_batches(&ids), vec![vec![7, 2_147_483_647]]);
    assert!(file_id_batches(&[]).is_empty());
}

#[test]
fn batch_request_body() {
    assert_eq!(file_ids_request_body(&[12, 345, -1]), "{\"fileIds\":[12,345,-1]}");
    assert_eq!(file_ids_request_body(&[]), "{\"fileIds\":[]}");
}

#[test]
fn fingerprint_keys() {
    assert_eq!(fingerprint_key(Some(99), 5), 99);
    assert_eq!(fingerprint_key(Some(0), 5), 0);
    assert_eq!(fingerprint_key(None, 5), 5);
}

#[test]
fn fingerprint_lookup_body() {
    assert_eq!(fingerprints_request_body(&[3608488434, 7]), "{\"fingerprints\":[3608488434,7]}");
    assert_eq!(fingerprints_request_body(&[]), "{\"fingerprints\":[]}");
}
