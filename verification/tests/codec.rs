use base64::Engine;
use fbox::messages::MnemonicResp;
use fbox::service::SessionService;

#[test]
fn generated_phrase_is_a_valid_mnemonic_within_bounds() {
    let svc = SessionService::new("pw".to_string());
    let phrase = svc.generate_mnemonic();
    assert!(phrase.len() >= fbox::MIN_PHRASE_LEN);
    assert!(phrase.len() <= fbox::MAX_PHRASE_LEN);
    assert_eq!(phrase.split(' ').count(), fbox::PHRASE_WORDS);
    for word in phrase.split(' ') {
        assert!(word.len() >= fbox::MIN_WORD_LEN && word.len() <= fbox::MAX_WORD_LEN);
    }
    assert!(bip39::Mnemonic::from_phrase(&phrase, bip39::Language::English).is_ok());
}

#[test]
fn phrase_length_bounds() {
    assert!(!fbox::check_phrase_len(fbox::MIN_PHRASE_LEN - 1));
    assert!(fbox::check_phrase_len(fbox::MIN_PHRASE_LEN));
    assert!(fbox::check_phrase_len(fbox::MAX_PHRASE_LEN));
    assert!(!fbox::check_phrase_len(fbox::MAX_PHRASE_LEN + 1));
}

#[test]
fn session_seed_is_the_mnemonic_derivation_of_the_creator_phrase() {
    let mut svc = SessionService::new("server secret".to_string());
    let (ha, _) = svc.create_pending_connection(1).unwrap();
    let (mut hb, _) = svc.create_pending_connection(2).unwrap();
    let creator_phrase = hb.phrase.clone();
    svc.on_connect(2, &mut hb, ha.phrase.clone());

    let mnemonic = bip39::Mnemonic::from_phrase(&creator_phrase, bip39::Language::English).unwrap();
    let expected = bip39::Seed::new(&mnemonic, "server secret");
    assert_eq!(svc.sessions[0].seed.as_slice(), expected.as_bytes());
}

#[test]
fn connected_seed_string_is_url_safe_base64_of_the_raw_seed() {
    let mut svc = SessionService::new("server secret".to_string());
    let (ha, _) = svc.create_pending_connection(1).unwrap();
    let (mut hb, _) = svc.create_pending_connection(2).unwrap();
    let out = svc.on_connect(2, &mut hb, ha.phrase.clone());
    let encoded = match &out[2].msg {
        fbox::messages::OutboundMessage::External(fbox::messages::WsResponse::Connected {
            seed,
            ..
        }) => seed.clone(),
        other => panic!("unexpected message: {other:?}"),
    };
    let decoded = base64::engine::general_purpose::URL_SAFE.decode(&encoded).unwrap();
    assert_eq!(decoded, svc.sessions[0].seed);
    assert_ne!(encoded.as_bytes(), svc.sessions[0].seed.as_slice());
}

#[test]
fn two_pending_connections_get_distinct_phrases() {
    let mut svc = SessionService::new("pw".to_string());
    let (ha, _) = svc.create_pending_connection(1).unwrap();
    let (hb, _) = svc.create_pending_connection(2).unwrap();
    assert_ne!(ha.phrase, hb.phrase);
    assert_eq!(svc.pending_connections.len(), 2);
}

#[test]
fn mnemonic_resp_carries_the_phrase() {
    let resp = MnemonicResp::new("alpha beta".to_string());
    assert_eq!(resp.phrase, "alpha beta");
}
