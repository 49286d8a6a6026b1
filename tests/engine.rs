use aes_gcm::aead::{Aead, KeyInit};
use aes_gcm::{Aes256Gcm, Nonce};
use fl_aggregator::{
    open_update, reconstruct_totals, update_key_request, key_material_hex, mode_from_name,
    AggregationMode, AggregatorError, PlainPass, State, SMPC_SCALE,
};

fn key_for(identity: &[u8]) -> Vec<u8> {
    let mut k = vec![7u8; 32];
    for (i, b) in identity.iter().enumerate() {
        k[i % 32] ^= *b;
    }
    k
}

fn encrypt(key: &[u8], nonce: [u8; 12], plaintext: &[u8]) -> Vec<u8> {
    let cipher = Aes256Gcm::new_from_slice(key).unwrap();
    let ct = cipher.encrypt(Nonce::from_slice(&nonce), plaintext).unwrap();
    let mut blob = nonce.to_vec();
    blob.extend_from_slice(&ct);
    blob
}

fn encrypted_vector(identity: &[u8], values: &[f32]) -> Vec<u8> {
    encrypt(&key_for(identity), [3u8; 12], &serde_json::to_vec(values).unwrap())
}

/// Drives one decrypt-and-average pass the way the service does.
fn run_plain(state: &mut State) -> Option<Vec<f32>> {
    let mut pass: PlainPass = state.begin_aggregation()?;
    let mut sum: Vec<f32> = Vec::new();
    while !pass.is_finished() {
        let id = pass.next_client();
        let identity = pass.identity_of(id).unwrap();
        match pass.open_next(&key_for(&identity)).unwrap() {
            None => pass.skip(),
            Some(plain) => {
                let v: Vec<f32> = serde_json::from_slice(&plain).unwrap();
                if pass.report_decoded(v.len()) {
                    if pass.accepted() == 1 {
                        sum = vec![0.0; pass.model_len().unwrap()];
                    }
                    for (i, x) in v.iter().enumerate() {
                        sum[i] += x;
                    }
                }
            }
        }
    }
    if pass.accepted() == 0 {
        return None;
    }
    let n = pass.accepted() as f32;
    let avg: Vec<f32> = sum.iter().map(|x| x / n).collect();
    state.finish_aggregation(&pass, serde_json::to_vec(&avg).unwrap());
    Some(avg)
}

#[test]
fn duplicate_registration_is_refused() {
    let mut s = State::new();
    assert_eq!(s.register_client(b"alice".to_vec()), Ok(0));
    assert_eq!(s.register_client(b"alice".to_vec()), Err(AggregatorError::DuplicateRegistration));
    assert_eq!(s.client_count(), 1);
    assert_eq!(s.register_client(b"bob".to_vec()), Ok(1));
}

#[test]
fn ids_are_dense_in_registration_order() {
    let mut s = State::new();
    for (n, who) in [b"a".to_vec(), b"b".to_vec(), b"c".to_vec()].into_iter().enumerate() {
        assert_eq!(s.register_client(who), Ok(n as u64));
    }
    assert_eq!(s.lookup_id(&b"c".to_vec()), Some(2));
    assert_eq!(s.lookup_id(&b"z".to_vec()), None);
}

#[test]
fn upload_requires_registration() {
    let mut s = State::new();
    assert_eq!(s.upload_model_update(&b"x".to_vec(), vec![1, 2, 3]), Err(AggregatorError::NotRegistered));
    assert_eq!(s.upload_masked_update_s(&b"x".to_vec(), vec![1]), Err(AggregatorError::NotRegistered));
    assert_eq!(s.upload_mask_sum_t(&b"x".to_vec(), vec![1]), Err(AggregatorError::NotRegistered));
}

#[test]
fn second_upload_overwrites_first() {
    let mut s = State::new();
    s.register_client(b"alice".to_vec()).unwrap();
    s.upload_model_update(&b"alice".to_vec(), encrypted_vector(b"alice", &[9.0, 9.0])).unwrap();
    s.upload_model_update(&b"alice".to_vec(), encrypted_vector(b"alice", &[1.0, 5.0])).unwrap();
    assert_eq!(run_plain(&mut s), Some(vec![1.0, 5.0]));
}

#[test]
fn aggregation_without_updates_is_a_no_op() {
    let mut s = State::new();
    s.register_client(b"alice".to_vec()).unwrap();
    assert!(s.begin_aggregation().is_none());
    assert_eq!(run_plain(&mut s), None);
    assert!(s.get_global_model().is_empty());
}

#[test]
fn two_clients_average_and_clear() {
    let mut s = State::new();
    s.register_client(b"alice".to_vec()).unwrap();
    s.register_client(b"bob".to_vec()).unwrap();
    s.upload_model_update(&b"alice".to_vec(), encrypted_vector(b"alice", &[1.0, 2.0])).unwrap();
    s.upload_model_update(&b"bob".to_vec(), encrypted_vector(b"bob", &[3.0, 4.0])).unwrap();
    assert_eq!(run_plain(&mut s), Some(vec![2.0, 3.0]));
    let model: Vec<f32> = serde_json::from_slice(&s.get_global_model()).unwrap();
    assert_eq!(model, vec![2.0, 3.0]);
    assert!(s.begin_aggregation().is_none());
}

#[test]
fn vector_of_other_length_is_excluded() {
    let mut s = State::new();
    for who in [b"alice".to_vec(), b"bob".to_vec(), b"carol".to_vec()] {
        s.register_client(who).unwrap();
    }
    s.upload_model_update(&b"alice".to_vec(), encrypted_vector(b"alice", &[1.0, 2.0])).unwrap();
    s.upload_model_update(&b"bob".to_vec(), encrypted_vector(b"bob", &[3.0, 4.0])).unwrap();
    s.upload_model_update(&b"carol".to_vec(), encrypted_vector(b"carol", &[100.0, 100.0, 100.0])).unwrap();
    assert_eq!(run_plain(&mut s), Some(vec![2.0, 3.0]));
}

#[test]
fn undecryptable_updates_are_skipped_and_kept() {
    let mut s = State::new();
    s.register_client(b"alice".to_vec()).unwrap();
    s.register_client(b"bob".to_vec()).unwrap();
    s.upload_model_update(&b"alice".to_vec(), vec![1, 2, 3]).unwrap();
    s.upload_model_update(&b"bob".to_vec(), encrypted_vector(b"alice", &[1.0])).unwrap();
    assert_eq!(run_plain(&mut s), None);
    assert!(s.begin_aggregation().is_some());
}

#[test]
fn pass_decisions() {
    let mut pass = PlainPass::new(0, vec![(0, vec![]), (1, vec![]), (2, vec![])], vec![b"a".to_vec()]);
    assert_eq!(pass.identity_of(0), Ok(b"a".to_vec()));
    assert_eq!(pass.identity_of(5), Err(AggregatorError::UnknownClientId));
    assert!(pass.report_decoded(2));
    assert!(!pass.report_decoded(3));
    assert!(pass.report_decoded(2));
    assert!(pass.is_finished());
    assert_eq!(pass.accepted(), 2);
    assert_eq!(pass.model_len(), Some(2));
}

#[test]
fn open_update_outcomes() {
    let key = key_for(b"k");
    let blob = encrypt(&key, [1u8; 12], b"[1.5]");
    assert_eq!(open_update(&key, &blob), Ok(Some(b"[1.5]".to_vec())));
    assert_eq!(open_update(&vec![0u8; 16], &blob), Err(AggregatorError::InvalidKeyMaterial));
    assert_eq!(open_update(&key, &vec![0u8; 11]), Ok(None));
    let mut tampered = blob.clone();
    let last = tampered.len() - 1;
    tampered[last] ^= 1;
    assert_eq!(open_update(&key, &tampered), Ok(None));
    assert_eq!(open_update(&key_for(b"other"), &blob), Ok(None));
}

#[test]
fn encryption_round_trip() {
    let identity = b"client-7".to_vec();
    let values = vec![0.25f32, -3.5, 1e-3];
    let blob = encrypted_vector(&identity, &values);
    let plain = open_update(&key_for(&identity), &blob).unwrap().unwrap();
    let back: Vec<f32> = serde_json::from_slice(&plain).unwrap();
    assert_eq!(back, values);
}

#[test]
fn smpc_reconstructs_average() {
    let mut s = State::new();
    s.register_client(b"alice".to_vec()).unwrap();
    s.upload_masked_update_s(&b"alice".to_vec(), vec![500000, -200000]).unwrap();
    s.upload_mask_sum_t(&b"alice".to_vec(), vec![300000, 400000]).unwrap();
    let t = s.begin_smpc_aggregation().unwrap();
    assert_eq!(t.totals, vec![800000i128, 200000]);
    assert_eq!(t.share_count, 1);
    let avg: Vec<f32> = t
        .totals
        .iter()
        .map(|x| ((*x as f64) / (t.share_count as f64) / (SMPC_SCALE as f64)) as f32)
        .collect();
    assert_eq!(avg, vec![0.8f32, 0.2f32]);
    let cycle = s.current_cycle();
    s.finish_smpc_aggregation(cycle, serde_json::to_vec(&avg).unwrap());
    assert!(s.begin_smpc_aggregation().is_none());
}

#[test]
fn smpc_without_shares_is_a_no_op() {
    let mut s = State::new();
    s.register_client(b"alice".to_vec()).unwrap();
    s.upload_mask_sum_t(&b"alice".to_vec(), vec![1, 2]).unwrap();
    assert!(s.begin_smpc_aggregation().is_none());
    assert!(reconstruct_totals(&[], &[vec![1, 2]]).is_none());
}

#[test]
fn smpc_skips_vectors_of_other_length() {
    let shares = vec![vec![10i64, 20], vec![1, 2, 3], vec![30, 40]];
    let sums = vec![vec![5i64, 5], vec![9]];
    let t = reconstruct_totals(&shares, &sums).unwrap();
    assert_eq!(t.totals, vec![45i128, 65]);
    assert_eq!(t.share_count, 2);
}

#[test]
fn smpc_sums_near_i64_limits_do_not_overflow() {
    let shares = vec![vec![i64::MAX, i64::MIN], vec![i64::MAX, i64::MIN]];
    let sums = vec![vec![i64::MAX, i64::MIN]];
    let t = reconstruct_totals(&shares, &sums).unwrap();
    assert_eq!(t.totals, vec![3 * (i64::MAX as i128), 3 * (i64::MIN as i128)]);
}

#[test]
fn participants_fall_back_to_registry() {
    let mut s = State::new();
    s.register_client(b"a".to_vec()).unwrap();
    s.register_client(b"b".to_vec()).unwrap();
    assert_eq!(s.get_cycle_participants(0), vec![0, 1]);
    assert_eq!(s.start_new_cycle(), 1);
    s.register_client(b"c".to_vec()).unwrap();
    assert_eq!(s.get_cycle_participants(1), vec![0, 1]);
    assert_eq!(s.get_cycle_participants(5), vec![0, 1, 2]);
}

#[test]
fn uploads_are_scoped_to_the_current_cycle() {
    let mut s = State::new();
    s.register_client(b"a".to_vec()).unwrap();
    s.upload_masked_update_s(&b"a".to_vec(), vec![1]).unwrap();
    s.upload_mask_sum_t(&b"a".to_vec(), vec![1]).unwrap();
    s.start_new_cycle();
    assert!(s.begin_smpc_aggregation().is_none());
}

#[test]
fn mode_names() {
    let mut s = State::new();
    assert_eq!(AggregationMode::default(), AggregationMode::Plain);
    assert_eq!(s.get_aggregation_mode(), "PLAIN");
    s.set_aggregation_mode("sMpC");
    assert_eq!(s.get_aggregation_mode(), "SMPC");
    s.set_aggregation_mode("bogus");
    assert_eq!(s.get_aggregation_mode(), "PLAIN");
    assert_eq!(mode_from_name("SMPC"), AggregationMode::SMPC);
    assert_eq!(mode_from_name("SMPCX"), AggregationMode::Plain);
}

#[test]
fn key_material_is_hex_encoded() {
    assert_eq!(key_material_hex(&vec![0xab, 0x01, 0xff]), "ab01ff");
    assert_eq!(key_material_hex(&vec![]), "");
}

#[test]
fn update_key_request_uses_fixed_label() {
    let r = update_key_request(&b"alice".to_vec());
    assert_eq!(r.key_id.name, "test_key_1");
    assert_eq!(r.derivation_path, vec![b"model_update_encryption".to_vec(), b"alice".to_vec()]);
    let c = fl_aggregator::client_key_request(b"model_update_encryption".to_vec(), b"alice".to_vec());
    assert_eq!(c.derivation_path, r.derivation_path);
}

#[test]
fn registry_resolves_ids() {
    let mut s = State::new();
    s.register_client(b"alice".to_vec()).unwrap();
    assert_eq!(s.identity_of(0), Ok(b"alice".to_vec()));
    assert_eq!(s.identity_of(1), Err(AggregatorError::UnknownClientId));
}

#[test]
fn empty_first_vector_fixes_length_zero() {
    let mut pass = PlainPass::new(0, vec![(0, vec![]), (1, vec![])], vec![b"a".to_vec(), b"b".to_vec()]);
    assert_eq!(pass.model_len(), None);
    assert!(pass.report_decoded(0));
    assert_eq!(pass.model_len(), Some(0));
    assert!(!pass.report_decoded(2));
    assert_eq!(pass.accepted(), 1);
}

#[test]
fn empty_first_update_excludes_later_vectors() {
    let mut s = State::new();
    s.register_client(b"alice".to_vec()).unwrap();
    s.register_client(b"bob".to_vec()).unwrap();
    s.upload_model_update(&b"alice".to_vec(), encrypted_vector(b"alice", &[])).unwrap();
    s.upload_model_update(&b"bob".to_vec(), encrypted_vector(b"bob", &[1.0, 2.0])).unwrap();
    assert_eq!(run_plain(&mut s), Some(vec![]));
    let model: Vec<f32> = serde_json::from_slice(&s.get_global_model()).unwrap();
    assert!(model.is_empty());
}
