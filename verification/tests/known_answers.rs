use argon2::{Algorithm, Argon2, Params, Version};

fn hex(bytes: &[u8]) -> String {
    let mut s = String::new();
    for b in bytes {
        s.push_str(&format!("{:02x}", b));
    }
    s
}

fn known_answer(algorithm: Algorithm, version: Version) -> String {
    let params = Params::new(32, 3, 4, Some(32))
        .unwrap()
        .with_data(&[4u8; 12])
        .unwrap();
    let secret = [3u8; 8];
    let ctx = Argon2::new_with_secret(&secret, algorithm, version, params).unwrap();
    let mut out = [0u8; 32];
    ctx.hash_password_into(&[1u8; 32], &[2u8; 16], &mut out)
        .unwrap();
    hex(&out)
}

fn password_hash(
    algorithm: Algorithm,
    version: Version,
    t: u32,
    m: u32,
    p: u32,
    pwd: &[u8],
    salt: &[u8],
) -> String {
    let params = Params::new(m, t, p, Some(32)).unwrap();
    let ctx = Argon2::new(algorithm, version, params);
    let mut out = [0u8; 32];
    ctx.hash_password_into(pwd, salt, &mut out).unwrap();
    hex(&out)
}

#[test]
fn argon2d_v0x13_known_answer() {
    assert_eq!(
        known_answer(Algorithm::Argon2d, Version::V0x13),
        "512b391b6f1162975371d30919734294f868e3be3984f3c1a13a4db9fabe4acb"
    );
}

#[test]
fn argon2i_v0x13_known_answer() {
    assert_eq!(
        known_answer(Algorithm::Argon2i, Version::V0x13),
        "c814d9d1dc7f37aa13f0d77f2494bda1c8de6b016dd388d29952a4c4672b6ce8"
    );
}

#[test]
fn argon2id_v0x13_known_answer() {
    assert_eq!(
        known_answer(Algorithm::Argon2id, Version::V0x13),
        "0d640df58d78766c08c037a34a8b53c9d01ef0452d75b65eb52520e96b01e659"
    );
}

#[test]
fn argon2d_v0x10_known_answer() {
    assert_eq!(
        known_answer(Algorithm::Argon2d, Version::V0x10),
        "96a9d4e5a1734092c85e29f410a45914a5dd1f5cbf08b2670da68a0285abf32b"
    );
}

#[test]
fn argon2i_v0x10_known_answer() {
    assert_eq!(
        known_answer(Algorithm::Argon2i, Version::V0x10),
        "87aeedd6517ab830cd9765cd8231abb2e647a5dee08f7c05e02fcb763335d0fd"
    );
}

#[test]
fn argon2id_v0x10_known_answer() {
    assert_eq!(
        known_answer(Algorithm::Argon2id, Version::V0x10),
        "b64615f07789b66b645b67ee9ed3b377ae350b6bfcbb0fc95141ea8f322613c0"
    );
}

#[test]
fn argon2i_v0x13_one_lane() {
    assert_eq!(
        password_hash(Algorithm::Argon2i, Version::V0x13, 2, 256, 1, b"password", b"somesalt"),
        "89e9029f4637b295beb027056a7336c414fadd43f6b208645281cb214a56452f"
    );
}

#[test]
fn argon2i_v0x13_two_lanes() {
    assert_eq!(
        password_hash(Algorithm::Argon2i, Version::V0x13, 2, 256, 2, b"password", b"somesalt"),
        "4ff5ce2769a1d7f4c8a491df09d41a9fbe90e5eb02155a13e4c01e20cd4eab61"
    );
}

#[test]
fn argon2id_v0x13_one_lane() {
    assert_eq!(
        password_hash(Algorithm::Argon2id, Version::V0x13, 2, 256, 1, b"password", b"somesalt"),
        "9dfeb910e80bad0311fee20f9c0e2b12c17987b4cac90c2ef54d5b3021c68bfe"
    );
}

#[test]
fn argon2id_v0x13_two_lanes() {
    assert_eq!(
        password_hash(Algorithm::Argon2id, Version::V0x13, 2, 256, 2, b"password", b"somesalt"),
        "6d093c501fd5999645e0ea3bf620d7b8be7fd2db59c20d9fff9539da2bf57037"
    );
}
