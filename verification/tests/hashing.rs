use argon2::{Algorithm, Argon2, Block, Error, Params, Version};
use blake2::{Blake2b512, Digest};

const PASSWORD: &[u8] = b"hunter42";
const SALT: &[u8] = b"examplesaltvalue";

fn small(algorithm: Algorithm, version: Version, t: u32, p: u32) -> Argon2<'static> {
    Argon2::new(algorithm, version, Params::new(64, t, p, None).unwrap())
}

fn hash32(ctx: &Argon2<'_>, pwd: &[u8], salt: &[u8]) -> [u8; 32] {
    let mut out = [0u8; 32];
    ctx.hash_password_into(pwd, salt, &mut out).unwrap();
    out
}

fn words(memory: &[Block]) -> Vec<[u64; 128]> {
    memory.iter().map(|b| b.words).collect()
}

#[test]
fn default_context() {
    let ctx = Argon2::default();
    assert_eq!(ctx.params().m_cost(), 4096);
    assert_eq!(ctx.params().t_cost(), 3);
    assert_eq!(ctx.params().p_cost(), 1);
    let from = Argon2::from(Params::default());
    assert_eq!(from.params().m_cost(), 4096);
    let small_ctx = Argon2::from(Params::new(64, 1, 1, None).unwrap());
    let same = small(Algorithm::Argon2id, Version::V0x13, 1, 1);
    assert_eq!(hash32(&small_ctx, PASSWORD, SALT), hash32(&same, PASSWORD, SALT));
}

#[test]
fn verify_inputs_bounds() {
    assert_eq!(Argon2::verify_inputs(PASSWORD, &[0u8; 7]), Err(Error::SaltTooShort));
    assert_eq!(Argon2::verify_inputs(PASSWORD, &[0u8; 8]), Ok(()));
    assert_eq!(Argon2::verify_inputs(&[], &[0u8; 8]), Ok(()));
    assert_eq!(Argon2::verify_inputs(&[], &[]), Err(Error::SaltTooShort));
}

#[test]
fn salt_of_seven_bytes_is_refused_and_eight_accepted() {
    let ctx = small(Algorithm::Argon2id, Version::V0x13, 1, 1);
    let mut out = [0u8; 32];
    assert_eq!(
        ctx.hash_password_into(PASSWORD, &[1u8; 7], &mut out),
        Err(Error::SaltTooShort)
    );
    assert_eq!(out, [0u8; 32]);
    assert_eq!(ctx.hash_password_into(PASSWORD, &[1u8; 8], &mut out), Ok(()));
    assert_ne!(out, [0u8; 32]);
    assert_eq!(
        ctx.hash_password(PASSWORD, &[1u8; 7]),
        Err(Error::SaltTooShort)
    );
}

#[test]
fn salt_too_short_after_decoding() {
    // "somesalt" is eight characters of Base64, which stand for six bytes.
    let salt = password_hash::Salt::new("somesalt").unwrap();
    let mut buf = [0u8; 64];
    let salt_bytes = salt.b64_decode(&mut buf).unwrap();
    assert_eq!(salt_bytes.len(), 6);
    let ctx = Argon2::default().customized(None, None, Params::default());
    assert_eq!(
        ctx.hash_password(PASSWORD, salt_bytes),
        Err(Error::SaltTooShort)
    );
}

#[test]
fn output_length_must_match_the_parameters() {
    let ctx = Argon2::new(
        Algorithm::Argon2id,
        Version::V0x13,
        Params::new(64, 1, 1, Some(32)).unwrap(),
    );
    let mut short = [0u8; 31];
    assert_eq!(
        ctx.hash_password_into(PASSWORD, SALT, &mut short),
        Err(Error::OutputTooShort)
    );
    let mut long = [0u8; 33];
    assert_eq!(
        ctx.hash_password_into(PASSWORD, SALT, &mut long),
        Err(Error::OutputTooLong)
    );
    assert_eq!(long, [0u8; 33]);
    let mut right = [0u8; 32];
    assert_eq!(ctx.hash_password_into(PASSWORD, SALT, &mut right), Ok(()));
    assert_eq!(ctx.verify_output(31), Err(Error::OutputTooShort));
    assert_eq!(ctx.verify_output(32), Ok(()));
    assert_eq!(ctx.verify_output(33), Err(Error::OutputTooLong));
}

#[test]
fn output_length_within_the_bounds_is_free_where_none_is_fixed() {
    let ctx = small(Algorithm::Argon2id, Version::V0x13, 1, 1);
    let mut three = [0u8; 3];
    assert_eq!(
        ctx.hash_password_into(PASSWORD, SALT, &mut three),
        Err(Error::OutputTooShort)
    );
    assert_eq!(ctx.verify_output(3), Err(Error::OutputTooShort));
    assert_eq!(ctx.verify_output(4), Ok(()));
    assert_eq!(ctx.verify_output(0xffff_ffff), Ok(()));
    if usize::BITS > 32 {
        assert_eq!(
            ctx.verify_output((0xffff_ffffu64 + 1) as usize),
            Err(Error::OutputTooLong)
        );
    }
    for len in [4usize, 31, 32, 64, 65, 100, 1024] {
        let mut out = vec![0u8; len];
        assert_eq!(ctx.hash_password_into(PASSWORD, SALT, &mut out), Ok(()));
        assert_eq!(out.len(), len);
        assert!(out.iter().any(|b| *b != 0));
    }
}

#[test]
fn the_output_length_enters_the_hash() {
    let ctx = small(Algorithm::Argon2id, Version::V0x13, 1, 1);
    let mut a = [0u8; 32];
    let mut b = [0u8; 64];
    ctx.hash_password_into(PASSWORD, SALT, &mut a).unwrap();
    ctx.hash_password_into(PASSWORD, SALT, &mut b).unwrap();
    assert_ne!(&a[..], &b[..32]);
}

#[test]
fn errors_come_in_order() {
    let ctx = small(Algorithm::Argon2id, Version::V0x13, 1, 1);
    let mut memory = vec![Block::new(); 10];
    let mut out = [0u8; 2];
    // Output first, then the salt, then the memory.
    assert_eq!(
        ctx.hash_password_into_with_memory(PASSWORD, &[0u8; 2], &mut out, &mut memory),
        Err(Error::OutputTooShort)
    );
    let mut out = [0u8; 32];
    assert_eq!(
        ctx.hash_password_into_with_memory(PASSWORD, &[0u8; 2], &mut out, &mut memory),
        Err(Error::SaltTooShort)
    );
    assert_eq!(
        ctx.hash_password_into_with_memory(PASSWORD, SALT, &mut out, &mut memory),
        Err(Error::MemoryTooLittle)
    );
    assert_eq!(out, [0u8; 32]);
    assert_eq!(words(&memory), vec![[0u64; 128]; 10]);
}

#[test]
fn memory_too_little_leaves_everything_alone() {
    let ctx = small(Algorithm::Argon2d, Version::V0x13, 1, 1);
    let mut memory = vec![Block::new(); 63];
    memory[5].words[7] = 99;
    let before = words(&memory);
    assert_eq!(
        ctx.fill_memory(PASSWORD, SALT, &mut memory),
        Err(Error::MemoryTooLittle)
    );
    assert_eq!(words(&memory), before);
    let mut h0 = [7u8; 64];
    assert_eq!(ctx.fill_blocks(&mut memory, &mut h0), Err(Error::MemoryTooLittle));
    assert_eq!(h0, [7u8; 64]);
    assert_eq!(words(&memory), before);
}

#[test]
fn blocks_beyond_the_count_are_left_alone() {
    let ctx = small(Algorithm::Argon2id, Version::V0x13, 1, 1);
    let mut memory = vec![Block::new(); 70];
    for b in memory.iter_mut() {
        b.words[0] = 0xdead;
    }
    let mut out = [0u8; 32];
    ctx.hash_password_into_with_memory(PASSWORD, SALT, &mut out, &mut memory)
        .unwrap();
    for b in &memory[64..] {
        assert_eq!(b.words[0], 0xdead);
        assert!(b.words[1..].iter().all(|w| *w == 0));
    }
    assert_eq!(out, hash32(&ctx, PASSWORD, SALT));
}

#[test]
fn two_runs_give_the_same_output() {
    for algorithm in [Algorithm::Argon2d, Algorithm::Argon2i, Algorithm::Argon2id] {
        for version in [Version::V0x10, Version::V0x13] {
            let ctx = small(algorithm, version, 2, 2);
            assert_eq!(hash32(&ctx, PASSWORD, SALT), hash32(&ctx, PASSWORD, SALT));
        }
    }
}

#[test]
fn what_memory_held_before_does_not_matter() {
    for algorithm in [Algorithm::Argon2d, Algorithm::Argon2i, Algorithm::Argon2id] {
        for version in [Version::V0x10, Version::V0x13] {
            let ctx = small(algorithm, version, 2, 2);
            let mut clean = vec![Block::new(); 64];
            let mut dirty = vec![Block::new(); 64];
            for (i, b) in dirty.iter_mut().enumerate() {
                for (j, w) in b.words.iter_mut().enumerate() {
                    *w = (i as u64) << 32 | j as u64 | 0x8000_0000_0000_0000;
                }
            }
            let mut a = [0u8; 32];
            let mut b = [0u8; 32];
            ctx.hash_password_into_with_memory(PASSWORD, SALT, &mut a, &mut clean)
                .unwrap();
            ctx.hash_password_into_with_memory(PASSWORD, SALT, &mut b, &mut dirty)
                .unwrap();
            assert_eq!(a, b);
            assert_eq!(words(&clean), words(&dirty));
            assert_eq!(a, hash32(&ctx, PASSWORD, SALT));
        }
    }
}

#[test]
fn every_input_byte_matters() {
    let params = Params::new(64, 1, 1, None)
        .unwrap()
        .with_data(b"associated")
        .unwrap();
    let secret = *b"pepper";
    let ctx = Argon2::new_with_secret(&secret, Algorithm::Argon2id, Version::V0x13, params.clone())
        .unwrap();
    let base = hash32(&ctx, PASSWORD, SALT);

    let mut pwd = PASSWORD.to_vec();
    pwd[3] ^= 1;
    assert_ne!(hash32(&ctx, &pwd, SALT), base);

    let mut salt = SALT.to_vec();
    salt[15] ^= 0x80;
    assert_ne!(hash32(&ctx, PASSWORD, &salt), base);

    let other_secret = *b"peppes";
    let other = Argon2::new_with_secret(
        &other_secret,
        Algorithm::Argon2id,
        Version::V0x13,
        params.clone(),
    )
    .unwrap();
    assert_ne!(hash32(&other, PASSWORD, SALT), base);

    let no_secret = Argon2::new(Algorithm::Argon2id, Version::V0x13, params.clone());
    assert_ne!(hash32(&no_secret, PASSWORD, SALT), base);

    let other_data = Params::new(64, 1, 1, None)
        .unwrap()
        .with_data(b"associatee")
        .unwrap();
    let other =
        Argon2::new_with_secret(&secret, Algorithm::Argon2id, Version::V0x13, other_data).unwrap();
    assert_ne!(hash32(&other, PASSWORD, SALT), base);

    // Moving a byte from the password to the salt changes the hash too.
    assert_ne!(
        hash32(&ctx, b"hunter4", b"2examplesaltvalue"),
        hash32(&ctx, b"hunter42", b"examplesaltvalue")
    );
}

#[test]
fn an_empty_secret_counts_as_none() {
    let params = Params::new(64, 1, 1, None).unwrap();
    let empty: [u8; 0] = [];
    let with = Argon2::new_with_secret(&empty, Algorithm::Argon2id, Version::V0x13, params.clone())
        .unwrap();
    let without = Argon2::new(Algorithm::Argon2id, Version::V0x13, params);
    assert_eq!(hash32(&with, PASSWORD, SALT), hash32(&without, PASSWORD, SALT));
}

#[test]
fn the_variants_and_costs_differ() {
    let d = hash32(&small(Algorithm::Argon2d, Version::V0x13, 1, 1), PASSWORD, SALT);
    let i = hash32(&small(Algorithm::Argon2i, Version::V0x13, 1, 1), PASSWORD, SALT);
    let id = hash32(&small(Algorithm::Argon2id, Version::V0x13, 1, 1), PASSWORD, SALT);
    assert_ne!(d, i);
    assert_ne!(d, id);
    assert_ne!(i, id);
    let two_passes = hash32(&small(Algorithm::Argon2id, Version::V0x13, 2, 1), PASSWORD, SALT);
    let two_lanes = hash32(&small(Algorithm::Argon2id, Version::V0x13, 1, 2), PASSWORD, SALT);
    assert_ne!(id, two_passes);
    assert_ne!(id, two_lanes);
}

#[test]
fn versions_differ_after_the_first_pass() {
    for algorithm in [Algorithm::Argon2d, Algorithm::Argon2i, Algorithm::Argon2id] {
        let v10 = small(algorithm, Version::V0x10, 3, 2);
        let v13 = small(algorithm, Version::V0x13, 3, 2);
        assert_ne!(hash32(&v10, PASSWORD, SALT), hash32(&v13, PASSWORD, SALT));
        // From one and the same initial hash the memories differ too.
        let mut a = vec![Block::new(); 64];
        let mut b = vec![Block::new(); 64];
        v10.fill_blocks(&mut a, &mut [9u8; 64]).unwrap();
        v13.fill_blocks(&mut b, &mut [9u8; 64]).unwrap();
        assert_ne!(words(&a), words(&b));
    }
}

#[test]
fn versions_fill_alike_in_a_single_pass() {
    for algorithm in [Algorithm::Argon2d, Algorithm::Argon2i, Algorithm::Argon2id] {
        let v10 = small(algorithm, Version::V0x10, 1, 2);
        let v13 = small(algorithm, Version::V0x13, 1, 2);
        let mut a = vec![Block::new(); 64];
        let mut b = vec![Block::new(); 64];
        v10.fill_blocks(&mut a, &mut [9u8; 64]).unwrap();
        v13.fill_blocks(&mut b, &mut [9u8; 64]).unwrap();
        assert_eq!(words(&a), words(&b));
        let mut out_a = [0u8; 32];
        let mut out_b = [0u8; 32];
        v10.finalize(&a, &mut out_a).unwrap();
        v13.finalize(&b, &mut out_b).unwrap();
        assert_eq!(out_a, out_b);
        // The version is hashed into the initial digest, so whole hashes
        // differ all the same.
        assert_ne!(hash32(&v10, PASSWORD, SALT), hash32(&v13, PASSWORD, SALT));
    }
}

#[test]
fn initial_hash_binds_every_input() {
    let params = Params::new(64, 3, 2, None)
        .unwrap()
        .with_data(&[4u8; 5])
        .unwrap();
    let secret = [3u8; 3];
    let ctx =
        Argon2::new_with_secret(&secret, Algorithm::Argon2i, Version::V0x10, params).unwrap();
    let out = [0u8; 40];
    let mut input = Vec::new();
    for n in [2u32, 40, 64, 3, 0x10, 1, 8] {
        input.extend_from_slice(&n.to_le_bytes());
    }
    input.extend_from_slice(PASSWORD);
    input.extend_from_slice(&16u32.to_le_bytes());
    input.extend_from_slice(SALT);
    input.extend_from_slice(&3u32.to_le_bytes());
    input.extend_from_slice(&secret);
    input.extend_from_slice(&5u32.to_le_bytes());
    input.extend_from_slice(&[4u8; 5]);
    let expected = Blake2b512::digest(&input);
    assert_eq!(&ctx.initial_hash(PASSWORD, SALT, &out)[..], &expected[..]);

    let plain = small(Algorithm::Argon2id, Version::V0x13, 1, 1);
    let mut input = Vec::new();
    for n in [1u32, 0, 64, 1, 0x13, 2, 8] {
        input.extend_from_slice(&n.to_le_bytes());
    }
    input.extend_from_slice(PASSWORD);
    input.extend_from_slice(&16u32.to_le_bytes());
    input.extend_from_slice(SALT);
    input.extend_from_slice(&0u32.to_le_bytes());
    input.extend_from_slice(&0u32.to_le_bytes());
    let expected = Blake2b512::digest(&input);
    assert_eq!(&plain.initial_hash(PASSWORD, SALT, &[])[..], &expected[..]);
}

#[test]
fn fill_blocks_wipes_the_initial_hash() {
    let ctx = small(Algorithm::Argon2id, Version::V0x13, 1, 1);
    let mut h0 = ctx.initial_hash(PASSWORD, SALT, &[0u8; 32]);
    assert_ne!(h0, [0u8; 64]);
    let mut memory = vec![Block::new(); 64];
    ctx.fill_blocks(&mut memory, &mut h0).unwrap();
    assert_eq!(h0, [0u8; 64]);
}

#[test]
fn the_steps_give_the_hash() {
    let ctx = small(Algorithm::Argon2id, Version::V0x13, 2, 2);
    let mut out = [0u8; 32];
    let mut h0 = ctx.initial_hash(PASSWORD, SALT, &out);
    let mut memory = vec![Block::new(); 64];
    ctx.fill_blocks(&mut memory, &mut h0).unwrap();
    ctx.finalize(&memory, &mut out).unwrap();
    assert_eq!(out, hash32(&ctx, PASSWORD, SALT));

    // The last blocks of the lanes, folded and hashed.
    let mut folded = memory[31];
    folded.xor_assign(&memory[63]);
    let expected = argon2::variable_hash::blake2b_long(&folded.to_bytes(), 32).unwrap();
    assert_eq!(&out[..], &expected[..]);
}

#[test]
fn finalize_refuses_an_empty_output() {
    let ctx = small(Algorithm::Argon2id, Version::V0x13, 1, 1);
    let memory = vec![Block::new(); 64];
    let mut out: [u8; 0] = [];
    assert_eq!(ctx.finalize(&memory, &mut out), Err(Error::OutputTooShort));
}

#[test]
fn fill_memory_fills_as_a_hash_of_no_output_would() {
    let ctx = small(Algorithm::Argon2d, Version::V0x13, 2, 2);
    let mut a = vec![Block::new(); 64];
    ctx.fill_memory(PASSWORD, SALT, &mut a).unwrap();
    let mut b = vec![Block::new(); 64];
    let mut h0 = ctx.initial_hash(PASSWORD, SALT, &[]);
    ctx.fill_blocks(&mut b, &mut h0).unwrap();
    assert_eq!(words(&a), words(&b));
    assert_eq!(
        ctx.fill_memory(PASSWORD, &[0u8; 7], &mut a),
        Err(Error::SaltTooShort)
    );
    assert_eq!(words(&a), words(&b));
}

#[test]
fn seeds_are_long_hashes_of_the_initial_hash() {
    let ctx = small(Algorithm::Argon2id, Version::V0x13, 1, 2);
    let h0 = [5u8; 64];
    let mut memory = vec![Block::new(); 64];
    memory[2].words[0] = 77;
    ctx.seed_blocks(&mut memory, &h0);
    for lane in 0..2u32 {
        for i in 0..2u32 {
            let mut input = h0.to_vec();
            input.extend_from_slice(&i.to_le_bytes());
            input.extend_from_slice(&lane.to_le_bytes());
            let bytes = argon2::variable_hash::blake2b_long(&input, 1024).unwrap();
            let index = (lane * 32 + i) as usize;
            assert_eq!(memory[index].to_bytes(), bytes);
        }
    }
    assert_eq!(memory[2].words[0], 77);
    assert!(memory[3].words.iter().all(|w| *w == 0));
    assert!(memory[34].words.iter().all(|w| *w == 0));
}

#[test]
fn address_pages_are_the_input_compressed_twice() {
    let zero = Block::new();
    let mut input = Block::new();
    input.words[0] = 1;
    input.words[3] = 64;
    let mut address = Block::new();
    Argon2::update_address_block(&mut address, &mut input, &zero);
    assert_eq!(input.words[6], 1);
    let once = Block::compress(&zero, &input);
    let twice = Block::compress(&zero, &once);
    assert_eq!(address.words, twice.words);
    Argon2::update_address_block(&mut address, &mut input, &zero);
    assert_eq!(input.words[6], 2);
    assert_ne!(address.words, twice.words);
}

#[test]
fn lanes_filled_by_tasks_give_the_same_memory() {
    for algorithm in [Algorithm::Argon2d, Algorithm::Argon2i, Algorithm::Argon2id] {
        for version in [Version::V0x10, Version::V0x13] {
            let ctx = Argon2::new(algorithm, version, Params::new(129, 3, 4, None).unwrap());
            let lanes = ctx.params().lanes();
            let count = ctx.params().block_count();
            let h0 = ctx.initial_hash(PASSWORD, SALT, &[0u8; 32]);

            let mut in_turn = vec![Block::new(); count];
            ctx.fill_blocks(&mut in_turn, &mut h0.clone()).unwrap();

            let mut by_tasks = vec![Block::new(); count];
            ctx.seed_blocks(&mut by_tasks, &h0);
            for pass in 0..ctx.params().iterations() {
                for slice in 0..4 {
                    // The tasks run in reverse, each on the memory before the slice.
                    let mut segments: Vec<Vec<Block>> = (0..lanes)
                        .rev()
                        .map(|lane| ctx.compute_segment(&by_tasks, pass, slice, lane))
                        .collect();
                    segments.reverse();
                    ctx.store_slice(&mut by_tasks, slice, &segments);
                }
            }
            assert_eq!(words(&in_turn), words(&by_tasks));

            let mut a = [0u8; 32];
            let mut b = [0u8; 32];
            ctx.finalize(&in_turn, &mut a).unwrap();
            ctx.finalize(&by_tasks, &mut b).unwrap();
            assert_eq!(a, b);
        }
    }
}

#[test]
fn a_segment_computed_is_the_segment_filled() {
    let ctx = small(Algorithm::Argon2id, Version::V0x13, 2, 2);
    let mut memory = vec![Block::new(); 64];
    ctx.seed_blocks(&mut memory, &[1u8; 64]);
    let computed = ctx.compute_segment(&memory, 0, 0, 1);
    let mut filled = memory.clone();
    ctx.fill_segment(&mut filled, 0, 0, 1);
    assert_eq!(computed.len(), 8);
    assert_eq!(words(&computed), words(&filled[32..40]));
    assert_eq!(words(&filled[..32]), words(&memory[..32]));
    assert_eq!(words(&filled[40..]), words(&memory[40..]));
    let mut stored = memory.clone();
    ctx.store_segment(&mut stored, 0, 1, &computed);
    assert_eq!(words(&stored), words(&filled));
}

#[test]
fn hash_password_has_the_default_length() {
    let ctx = small(Algorithm::Argon2id, Version::V0x13, 1, 1);
    let hash = ctx.hash_password(PASSWORD, SALT).unwrap();
    assert_eq!(hash.len(), 32);
    assert_eq!(&hash[..], &hash32(&ctx, PASSWORD, SALT)[..]);
    let fixed = Argon2::new(
        Algorithm::Argon2id,
        Version::V0x13,
        Params::new(64, 1, 1, Some(48)).unwrap(),
    );
    assert_eq!(fixed.hash_password(PASSWORD, SALT).unwrap().len(), 48);
}

#[test]
fn customized_keeps_the_secret() {
    let secret = *b"pepper";
    let base = Argon2::new_with_secret(
        &secret,
        Algorithm::Argon2d,
        Version::V0x10,
        Params::default(),
    )
    .unwrap();
    let params = Params::new(2048, 4, 2, None).unwrap();
    let custom = base.customized(None, Some(Version::V0x10), params.clone());
    assert_eq!(custom.params().t_cost(), 4);
    assert_eq!(custom.params().m_cost(), 2048);
    assert_eq!(custom.params().p_cost(), 2);
    let direct =
        Argon2::new_with_secret(&secret, Algorithm::Argon2id, Version::V0x10, params).unwrap();
    assert_eq!(
        custom.hash_password(PASSWORD, SALT),
        direct.hash_password(PASSWORD, SALT)
    );
    let other = base.customized(
        Some(Algorithm::Argon2i),
        None,
        Params::new(64, 1, 1, None).unwrap(),
    );
    let direct = Argon2::new_with_secret(
        &secret,
        Algorithm::Argon2i,
        Version::V0x13,
        Params::new(64, 1, 1, None).unwrap(),
    )
    .unwrap();
    assert_eq!(
        other.hash_password(PASSWORD, SALT),
        direct.hash_password(PASSWORD, SALT)
    );
}

#[test]
fn constants() {
    assert_eq!(argon2::MAX_PWD_LEN, 0xffff_ffff);
    assert_eq!(argon2::MIN_SALT_LEN, 8);
    assert_eq!(argon2::MAX_SALT_LEN, 0xffff_ffff);
    assert_eq!(argon2::RECOMMENDED_SALT_LEN, 16);
    assert_eq!(argon2::MAX_SECRET_LEN, 0xffff_ffff);
}

#[test]
fn configured_params_are_kept() {
    // Non-default but valid parameters
    let t_cost = 4;
    let m_cost = 2048;
    let p_cost = 2;
    let version = Version::V0x10;

    let params = Params::new(m_cost, t_cost, p_cost, None).unwrap();
    let hasher = Argon2::new(Algorithm::default(), version, params);
    let salt = password_hash::Salt::new("examplesaltvalue").unwrap();
    let mut buf = [0u8; 64];
    let salt_bytes = salt.b64_decode(&mut buf).unwrap();
    let hash = hasher.hash_password(PASSWORD, salt_bytes).unwrap();

    assert_eq!(hash.len(), 32);
    assert_eq!(hasher.version(), version);
    assert_eq!(hasher.version().number(), 16);
    assert_eq!(hasher.algorithm(), Algorithm::Argon2id);
    assert_eq!(hasher.params().t_cost(), t_cost);
    assert_eq!(hasher.params().m_cost(), m_cost);
    assert_eq!(hasher.params().p_cost(), p_cost);
    let again = hasher.clone().hash_password(PASSWORD, salt_bytes).unwrap();
    assert_eq!(hash, again);
}

#[test]
fn customized_hash() {
    let base = Argon2::default();
    let params = Params::new(64, 2, 1, Some(16)).unwrap();
    let direct = Argon2::new(Algorithm::Argon2i, Version::V0x10, params.clone());
    assert_eq!(
        base.hash_password_customized(
            PASSWORD,
            Some(Algorithm::Argon2i),
            Some(0x10),
            params.clone(),
            SALT
        ),
        direct.hash_password(PASSWORD, SALT)
    );
    let default = Argon2::new(Algorithm::Argon2id, Version::V0x13, params.clone());
    assert_eq!(
        base.hash_password_customized(PASSWORD, None, None, params.clone(), SALT),
        default.hash_password(PASSWORD, SALT)
    );
    assert_eq!(
        base.hash_password_customized(PASSWORD, None, Some(0x11), params.clone(), SALT),
        Err(Error::VersionInvalid)
    );
    assert_eq!(
        base.hash_password_customized(PASSWORD, None, None, params, &[0u8; 7]),
        Err(Error::SaltTooShort)
    );
}
