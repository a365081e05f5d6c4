use mercurial_signature::extension::representation::VarMessage;
use mercurial_signature::extension::signature::VarSignature;
use mercurial_signature::{
    fr_random, g1_random, Error, G1Elem, PublicKey, PublicParams, Rng, Scalar, SecretKey,
    Signature,
};

fn random_message(rng: &mut Rng, n: usize) -> Vec<G1Elem> {
    let mut message = Vec::new();
    for _ in 0..n {
        message.push(g1_random(rng));
    }
    message
}

#[test]
fn params_round_trip() {
    let mut rng = Rng::new();
    let pp = PublicParams::new(&mut rng);
    let bytes = pp.to_bytes();
    assert_eq!(bytes.len(), 144);
    let pp2 = PublicParams::from_bytes(&bytes).unwrap();
    assert_eq!(pp2.to_bytes(), bytes);
}

#[test]
fn key_pair_round_trip() {
    let mut rng = Rng::new();
    let pp = PublicParams::new(&mut rng);
    let (pk, sk) = pp.key_gen(&mut rng, 6);

    let pk_bytes = pk.to_bytes();
    assert_eq!(pk_bytes.len(), 8 + 96 * 6);
    let pk2 = PublicKey::from_bytes(&pk_bytes).unwrap();
    assert!(pk2 == pk);

    let sk_bytes = sk.to_bytes();
    assert_eq!(sk_bytes.len(), 8 + 32 * 6);
    // The length prefix is a little-endian 64-bit count.
    assert_eq!(&sk_bytes[0..8], &[6, 0, 0, 0, 0, 0, 0, 0]);
    let sk2 = SecretKey::from_bytes(&sk_bytes).unwrap();
    assert!(sk2 == sk);
}

#[test]
fn signature_round_trip() {
    let mut rng = Rng::new();
    let pp = PublicParams::new(&mut rng);
    let (pk, sk) = pp.key_gen(&mut rng, 3);
    let message = random_message(&mut rng, 3);
    let sig = sk.sign(&mut rng, &pp, &message).unwrap();

    let bytes = sig.to_bytes();
    assert_eq!(bytes.len(), 192);
    let sig2 = Signature::from_bytes(&bytes).unwrap();
    assert!(sig2 == sig);
    assert!(pk.verify(&pp, &message, &sig2));
}

#[test]
fn var_message_round_trip() {
    let mut rng = Rng::new();
    let mut scalars: Vec<Scalar> = Vec::new();
    for _ in 0..5 {
        scalars.push(fr_random(&mut rng));
    }
    let g = g1_random(&mut rng);
    let var_message = VarMessage::new(g, &scalars);

    let bytes = var_message.to_bytes();
    assert_eq!(bytes.len(), 48 + 8 + 48 * 5);
    let back = VarMessage::from_bytes(&bytes).unwrap();
    assert!(back == var_message);
}

#[test]
fn var_signature_round_trip() {
    let mut rng = Rng::new();
    let pp = PublicParams::new(&mut rng);
    let (pk, sk) = pp.key_gen_ex(&mut rng);
    let mut scalars: Vec<Scalar> = Vec::new();
    for _ in 0..5 {
        scalars.push(fr_random(&mut rng));
    }
    let g = g1_random(&mut rng);
    let var_message = VarMessage::new(g, &scalars);
    let sig = sk.sign(&mut rng, &pp, &var_message);

    let bytes = sig.to_bytes();
    assert_eq!(bytes.len(), 48 + 8 + 192 * 5);
    let back = VarSignature::from_bytes(&bytes).unwrap();
    assert!(back == sig);
    assert!(pk.verify(&pp, &var_message, &back));
}

#[test]
fn malformed_bytes_are_rejected() {
    let garbage = vec![0xffu8; 144];
    assert!(matches!(
        PublicParams::from_bytes(&garbage),
        Err(Error::MalformedKey)
    ));

    let short = vec![1u8, 2, 3];
    assert!(matches!(
        PublicParams::from_bytes(&short),
        Err(Error::MalformedKey)
    ));
    assert!(matches!(
        PublicKey::from_bytes(&short),
        Err(Error::MalformedKey)
    ));
    assert!(matches!(
        SecretKey::from_bytes(&short),
        Err(Error::MalformedKey)
    ));
    assert!(matches!(
        Signature::from_bytes(&short),
        Err(Error::MalformedKey)
    ));
    assert!(matches!(
        VarMessage::from_bytes(&short),
        Err(Error::MalformedKey)
    ));
    assert!(matches!(
        VarSignature::from_bytes(&short),
        Err(Error::MalformedKey)
    ));
}

#[test]
fn length_prefix_must_match_the_byte_count() {
    let mut rng = Rng::new();
    let pp = PublicParams::new(&mut rng);
    let (pk, _sk) = pp.key_gen(&mut rng, 2);
    let mut bytes = pk.to_bytes();
    // Claim three components while carrying two.
    bytes[0] = 3;
    assert!(matches!(
        PublicKey::from_bytes(&bytes),
        Err(Error::MalformedKey)
    ));
}

#[test]
fn secret_key_bytes_are_not_the_identity_map() {
    let mut rng = Rng::new();
    let pp = PublicParams::new(&mut rng);
    let (_pk, sk) = pp.key_gen(&mut rng, 2);
    let bytes = sk.to_bytes();
    let sk2 = SecretKey::from_bytes(&bytes).unwrap();
    // A fresh key almost surely differs: serialization carries the scalars.
    let (_pk3, sk3) = pp.key_gen(&mut rng, 2);
    assert!(sk2 == sk);
    assert!(sk3 != sk);
}
