use argon2::{Algorithm, Error, Params, Version};

#[test]
fn new_keeps_the_costs() {
    let p = Params::new(2048, 4, 2, Some(40)).unwrap();
    assert_eq!(p.m_cost(), 2048);
    assert_eq!(p.t_cost(), 4);
    assert_eq!(p.p_cost(), 2);
    assert_eq!(p.output_len(), Some(40));
    assert_eq!(p.data(), &[] as &[u8]);
    assert_eq!(p.keyid(), &[] as &[u8]);
    assert_eq!(p.lanes(), 2);
    assert_eq!(p.iterations(), 4);
    assert_eq!(p.segment_length(), 256);
    assert_eq!(p.lane_length(), 1024);
    assert_eq!(p.block_count(), 2048);
}

#[test]
fn geometry_rounds_down_to_whole_segments() {
    let p = Params::new(37, 1, 3, None).unwrap();
    assert_eq!(p.segment_length(), 3);
    assert_eq!(p.lane_length(), 12);
    assert_eq!(p.block_count(), 36);
    let p = Params::new(8, 1, 1, None).unwrap();
    assert_eq!(p.segment_length(), 2);
    assert_eq!(p.block_count(), 8);
}

#[test]
fn default_params() {
    let p = Params::default();
    assert_eq!(p.m_cost(), 4096);
    assert_eq!(p.t_cost(), 3);
    assert_eq!(p.p_cost(), 1);
    assert_eq!(p.output_len(), None);
    assert_eq!(Params::DEFAULT_OUTPUT_LEN, 32);
}

#[test]
fn new_refuses_costs_out_of_bounds() {
    assert_eq!(Params::new(7, 1, 1, None).unwrap_err(), Error::MemoryTooLittle);
    assert_eq!(
        Params::new(0x1000_0000, 1, 1, None).unwrap_err(),
        Error::MemoryTooMuch
    );
    assert_eq!(Params::new(8, 0, 1, None).unwrap_err(), Error::TimeTooSmall);
    assert_eq!(Params::new(8, 1, 0, None).unwrap_err(), Error::ThreadsTooFew);
    assert_eq!(
        Params::new(0x0fff_ffff, 1, 0x0100_0000, None).unwrap_err(),
        Error::ThreadsTooMany
    );
    assert_eq!(
        Params::new(8, 1, 1, Some(3)).unwrap_err(),
        Error::OutputTooShort
    );
    assert_eq!(Params::new(15, 1, 2, None).unwrap_err(), Error::MemoryTooLittle);
    assert!(Params::new(16, 1, 2, None).is_ok());
    assert!(Params::new(8, 1, 1, Some(4)).is_ok());
    assert!(Params::new(0x0fff_ffff, 0xffff_ffff, 0x00ff_ffff, None).is_ok());
}

#[test]
fn new_checks_in_order() {
    // Memory is looked at before time, time before lanes, lanes before the
    // output length, and the memory a lane needs comes last.
    assert_eq!(Params::new(7, 0, 0, Some(1)).unwrap_err(), Error::MemoryTooLittle);
    assert_eq!(Params::new(8, 0, 0, Some(1)).unwrap_err(), Error::TimeTooSmall);
    assert_eq!(Params::new(8, 1, 0, Some(1)).unwrap_err(), Error::ThreadsTooFew);
    assert_eq!(Params::new(8, 1, 2, Some(1)).unwrap_err(), Error::OutputTooShort);
}

#[test]
fn output_longer_than_the_maximum_is_refused() {
    if usize::BITS > 32 {
        let too_long = (0xffff_ffffu64 + 1) as usize;
        assert_eq!(
            Params::new(8, 1, 1, Some(too_long)).unwrap_err(),
            Error::OutputTooLong
        );
    }
    assert!(Params::new(8, 1, 1, Some(0xffff_ffff)).is_ok());
}

#[test]
fn associated_data_and_key_identifier() {
    let p = Params::new(8, 1, 1, None).unwrap();
    let p = p.with_data(&[4u8; 32]).unwrap();
    assert_eq!(p.data(), &[4u8; 32]);
    let p = p.with_keyid(&[5u8; 8]).unwrap();
    assert_eq!(p.keyid(), &[5u8; 8]);
    assert_eq!(p.data(), &[4u8; 32]);
    assert_eq!(p.m_cost(), 8);
    let q = p.clone();
    assert_eq!(q.data(), p.data());
    assert_eq!(q.keyid(), p.keyid());
    assert_eq!(q.block_count(), p.block_count());
    assert_eq!(p.clone().with_data(&[0u8; 33]).unwrap_err(), Error::AdTooLong);
    assert_eq!(
        p.clone().with_keyid(&[0u8; 9]).unwrap_err(),
        Error::KeyIdTooLong
    );
}

#[test]
fn algorithm_numbers() {
    assert_eq!(Algorithm::Argon2d.id(), 0);
    assert_eq!(Algorithm::Argon2i.id(), 1);
    assert_eq!(Algorithm::Argon2id.id(), 2);
    assert_eq!(Algorithm::from_id(0), Ok(Algorithm::Argon2d));
    assert_eq!(Algorithm::from_id(1), Ok(Algorithm::Argon2i));
    assert_eq!(Algorithm::from_id(2), Ok(Algorithm::Argon2id));
    assert_eq!(Algorithm::from_id(3), Err(Error::AlgorithmInvalid));
    assert_eq!(Algorithm::default(), Algorithm::Argon2id);
}

#[test]
fn version_numbers() {
    assert_eq!(Version::V0x10.number(), 16);
    assert_eq!(Version::V0x13.number(), 19);
    assert_eq!(Version::from_number(0x10), Ok(Version::V0x10));
    assert_eq!(Version::from_number(0x13), Ok(Version::V0x13));
    assert_eq!(Version::from_number(0x12), Err(Error::VersionInvalid));
    assert_eq!(Version::default(), Version::V0x13);
}
