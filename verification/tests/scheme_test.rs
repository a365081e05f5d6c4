use mercurial_signature::extension::representation::VarMessage;
use mercurial_signature::{
    fr_random, fr_random_nonzero, g1_random, Error, G1Elem, PublicParams, Rng, Scalar,
};

fn random_message(rng: &mut Rng, n: usize) -> Vec<G1Elem> {
    let mut message = Vec::new();
    for _ in 0..n {
        message.push(g1_random(rng));
    }
    message
}

fn random_varmessage(rng: &mut Rng, n: usize) -> VarMessage {
    let mut message: Vec<Scalar> = Vec::new();
    for _ in 0..n {
        message.push(fr_random(rng));
    }
    let g = g1_random(rng);
    VarMessage::new(g, &message)
}

#[test]
fn sign_then_verify_accepts_full_length() {
    let mut rng = Rng::new();
    let pp = PublicParams::new(&mut rng);
    let (pk, sk) = pp.key_gen(&mut rng, 10);
    let message = random_message(&mut rng, 10);
    let sig = sk.sign(&mut rng, &pp, &message).unwrap();
    assert!(pk.verify(&pp, &message, &sig));
}

#[test]
fn sign_accepts_short_message_and_rejects_long_one() {
    let mut rng = Rng::new();
    let pp = PublicParams::new(&mut rng);
    let (pk, sk) = pp.key_gen(&mut rng, 10);

    let short = random_message(&mut rng, 5);
    let sig = sk.sign(&mut rng, &pp, &short).unwrap();
    assert!(pk.verify(&pp, &short, &sig));

    let long = random_message(&mut rng, 11);
    let r = sk.sign(&mut rng, &pp, &long);
    assert!(matches!(r, Err(Error::MessageTooLong)));
}

#[test]
fn key_lengths_match_the_requested_size() {
    let mut rng = Rng::new();
    let pp = PublicParams::new(&mut rng);
    let (pk, sk) = pp.key_gen(&mut rng, 7);
    assert_eq!(pk.length(), 7);
    assert_eq!(sk.length(), 7);
}

#[test]
fn default_params_sign_and_verify() {
    let mut rng = Rng::new();
    let pp = PublicParams::default();
    let (pk, sk) = pp.key_gen(&mut rng, 3);
    let message = random_message(&mut rng, 3);
    let sig = sk.sign(&mut rng, &pp, &message).unwrap();
    assert!(pk.verify(&pp, &message, &sig));
}

#[test]
fn verify_fails_for_a_different_message() {
    let mut rng = Rng::new();
    let pp = PublicParams::new(&mut rng);
    let (pk, sk) = pp.key_gen(&mut rng, 4);
    let message = random_message(&mut rng, 4);
    let other = random_message(&mut rng, 4);
    let sig = sk.sign(&mut rng, &pp, &message).unwrap();
    assert!(pk.verify(&pp, &message, &sig));
    assert!(!pk.verify(&pp, &other, &sig));
}

#[test]
fn verify_fails_when_message_is_longer_than_key() {
    let mut rng = Rng::new();
    let pp = PublicParams::new(&mut rng);
    let (pk, sk) = pp.key_gen(&mut rng, 10);
    let message = random_message(&mut rng, 10);
    let sig = sk.sign(&mut rng, &pp, &message).unwrap();

    let mut longer = message.clone();
    longer.push(g1_random(&mut rng));
    assert!(!pk.verify(&pp, &longer, &sig));
}

#[test]
fn var_sign_then_var_verify_accepts() {
    let mut rng = Rng::new();
    let pp = PublicParams::new(&mut rng);
    let (pk, sk) = pp.key_gen_ex(&mut rng);
    let var_message = random_varmessage(&mut rng, 10);
    let sig = sk.sign(&mut rng, &pp, &var_message);
    assert!(pk.verify(&pp, &var_message, &sig));
}

#[test]
fn var_message_length_and_size() {
    let mut rng = Rng::new();
    let var_message = random_varmessage(&mut rng, 10);
    assert_eq!(var_message.length(), 10);
    assert_eq!(var_message.size(), 48 * 11);
}

#[test]
fn var_verify_fails_after_randomize_without_new_signature() {
    let mut rng = Rng::new();
    let pp = PublicParams::new(&mut rng);
    let (pk, sk) = pp.key_gen_ex(&mut rng);
    let mut var_message = random_varmessage(&mut rng, 6);
    let sig = sk.sign(&mut rng, &pp, &var_message);
    assert!(pk.verify(&pp, &var_message, &sig));

    let w = fr_random_nonzero(&mut rng);
    var_message.randomize(w);
    assert!(!pk.verify(&pp, &var_message, &sig));
}

#[test]
fn var_verify_fails_on_signature_count_mismatch() {
    let mut rng = Rng::new();
    let pp = PublicParams::new(&mut rng);
    let (pk, sk) = pp.key_gen_ex(&mut rng);
    let var_message = random_varmessage(&mut rng, 4);
    let shorter = random_varmessage(&mut rng, 3);
    let sig = sk.sign(&mut rng, &pp, &shorter);
    assert!(!pk.verify(&pp, &var_message, &sig));
}
