use wnfs::accumulator::{AccumulatorSetup, NameAccumulator, NameSegment, RSA_2048_MODULUS};
use wnfs::error::FsError;
use wnfs::name::Name;

#[test]
fn accumulating_in_any_order_gives_the_same_bytes() {
    let rng = &mut rand::thread_rng();
    let setup = AccumulatorSetup::from_rsa_2048(rng);
    let a = NameSegment::new(rng);
    let b = NameSegment::new_hashed("tests", &[1u8, 2, 3]);
    let c = NameSegment::new(rng);

    let mut one = NameAccumulator::empty(&setup);
    one.add(&vec![a.clone(), b.clone(), c.clone()], &setup);

    let mut two = NameAccumulator::empty(&setup);
    two.add(&vec![c.clone()], &setup);
    two.add(&vec![a.clone()], &setup);
    two.add(&vec![b.clone()], &setup);

    assert!(one.equals(&two));
    assert_eq!(one.into_bytes().to_vec(), two.into_bytes().to_vec());
}

#[test]
fn adding_a_segment_changes_the_accumulator() {
    let rng = &mut rand::thread_rng();
    let setup = AccumulatorSetup::from_rsa_2048(rng);
    let empty = NameAccumulator::empty(&setup);
    let mut acc = empty.clone();
    acc.add(&vec![NameSegment::new(rng)], &setup);
    assert!(!acc.equals(&empty));
    assert_ne!(acc.as_bytes().to_vec(), empty.as_bytes().to_vec());
}

#[test]
fn hashed_segments_are_reproducible() {
    let a = NameSegment::new_hashed("wnfs benchmarks", &[7u8; 32]);
    let b = NameSegment::new_hashed("wnfs benchmarks", &[7u8; 32]);
    let c = NameSegment::new_hashed("wnfs benchmarks", &[8u8; 32]);
    let d = NameSegment::new_hashed("another context", &[7u8; 32]);
    assert!(a.equals(&b));
    assert!(!a.equals(&c));
    assert!(!a.equals(&d));
}

#[test]
fn accumulator_bytes_round_trip() {
    let rng = &mut rand::thread_rng();
    let setup = AccumulatorSetup::from_rsa_2048(rng);
    let mut acc = NameAccumulator::empty(&setup);
    acc.add(&vec![NameSegment::new(rng)], &setup);
    let bytes = acc.as_bytes();
    let parsed = NameAccumulator::parse_bytes(&bytes).unwrap();
    assert!(parsed.equals(&acc));
    assert_eq!(parsed.into_bytes().to_vec(), bytes.to_vec());
}

#[test]
fn parse_bytes_rejects_other_lengths() {
    assert!(matches!(NameAccumulator::parse_bytes(&[0u8; 255]), Err(FsError::MalformedRecord)));
    assert!(matches!(NameAccumulator::parse_bytes(&[0u8; 257]), Err(FsError::MalformedRecord)));
    assert!(matches!(NameAccumulator::parse_bytes(&[]), Err(FsError::MalformedRecord)));
    assert!(NameAccumulator::parse_bytes(&[0u8; 256]).is_ok());
}

#[test]
fn names_with_the_same_segments_share_a_label() {
    let rng = &mut rand::thread_rng();
    let setup = AccumulatorSetup::from_rsa_2048(rng);
    let a = NameSegment::new(rng);
    let b = NameSegment::new(rng);
    let root = Name::empty(&setup);
    assert!(root.is_root());
    assert!(root.parent().is_none());

    let ab = root.with_segments_added(vec![a.clone(), b.clone()]);
    let ba = root.with_segments_added(vec![b.clone(), a.clone()]);
    assert!(!ab.equals(&ba));
    assert!(ab.into_accumulator(&setup).equals(&ba.into_accumulator(&setup)));

    let parent = ab.parent().unwrap();
    assert_eq!(parent.segment_count(), 1);
    assert!(parent.get_segments()[0].equals(&a));
    assert!(!parent.into_accumulator(&setup).equals(&ab.into_accumulator(&setup)));
    assert!(root.into_accumulator(&setup).equals(&NameAccumulator::empty(&setup)));
}

#[test]
fn setup_checks_its_modulus() {
    let rng = &mut rand::thread_rng();
    assert!(matches!(
        AccumulatorSetup::with_modulus(&[1u8; 255], rng),
        Err(FsError::InvalidSetupParameters)
    ));
    assert!(matches!(
        AccumulatorSetup::with_modulus(&[1u8; 257], rng),
        Err(FsError::InvalidSetupParameters)
    ));
    assert!(matches!(
        AccumulatorSetup::with_modulus(&[0u8; 256], rng),
        Err(FsError::InvalidSetupParameters)
    ));
    assert!(matches!(
        AccumulatorSetup::with_modulus(&[2u8; 256], rng),
        Err(FsError::InvalidSetupParameters)
    ));
    assert!(AccumulatorSetup::with_modulus(&[3u8; 256], rng).is_ok());
}

#[test]
fn accumulators_stay_below_the_modulus() {
    let rng = &mut rand::thread_rng();
    // The modulus 35, in 256 digits.
    let mut modulus = [0u8; 256];
    modulus[255] = 35;
    let setup = AccumulatorSetup::with_modulus(&modulus, rng).unwrap();
    let empty = NameAccumulator::empty(&setup);
    let generator = empty.as_bytes();
    assert_eq!(&generator[..255], &[0u8; 255][..]);
    assert!(generator[255] < 35);

    let segments = vec![NameSegment::new(rng), NameSegment::new_hashed("t", b"x")];
    let mut acc = empty.clone();
    acc.add(&segments, &setup);
    let state = acc.as_bytes();
    assert_eq!(&state[..255], &[0u8; 255][..]);
    assert!(state[255] < 35);

    // One step with both segments is two steps with one each.
    let mut steps = empty.clone();
    steps.add(&vec![segments[1].clone()], &setup);
    steps.add(&vec![segments[0].clone()], &setup);
    assert_eq!(steps.into_bytes(), state);

    // No segments: the state is reduced and stays.
    let mut same = acc.clone();
    same.add(&vec![], &setup);
    assert_eq!(same.into_bytes(), state);
    assert_eq!(
        NameAccumulator::with_segments(&segments, &setup).into_bytes(),
        state
    );
}

#[test]
fn a_copy_of_a_setup_accumulates_alike() {
    let rng = &mut rand::thread_rng();
    let setup = AccumulatorSetup::from_rsa_2048(rng);
    let copy = setup.clone();
    assert!(NameAccumulator::empty(&setup).equals(&NameAccumulator::empty(&copy)));
    let segments = vec![NameSegment::new(rng)];
    assert!(NameAccumulator::with_segments(&segments, &setup)
        .equals(&NameAccumulator::with_segments(&segments, &copy)));
    // Another setup starts from another generator.
    let other = AccumulatorSetup::from_rsa_2048(rng);
    assert!(!NameAccumulator::empty(&setup).equals(&NameAccumulator::empty(&other)));
}

#[test]
fn different_segment_sets_give_different_accumulators() {
    let rng = &mut rand::thread_rng();
    let setup = AccumulatorSetup::from_rsa_2048(rng);
    let segments: Vec<NameSegment> = (0..4).map(|_| NameSegment::new(rng)).collect();
    let mut seen: Vec<Vec<u8>> = Vec::new();
    for mask in 0..16u32 {
        let chosen: Vec<NameSegment> = (0..4)
            .filter(|i| mask & (1 << i) != 0)
            .map(|i| segments[i].clone())
            .collect();
        let bytes = NameAccumulator::with_segments(&chosen, &setup).into_bytes().to_vec();
        assert!(!seen.contains(&bytes));
        seen.push(bytes);
    }
    // Twice the same segment is not once the segment.
    let twice = vec![segments[0].clone(), segments[0].clone()];
    assert!(!seen.contains(&NameAccumulator::with_segments(&twice, &setup).into_bytes().to_vec()));
}

#[test]
fn name_round_trip_keeps_the_label() {
    let rng = &mut rand::thread_rng();
    let setup = AccumulatorSetup::from_rsa_2048(rng);
    let name = Name::empty(&setup).with_segments_added(vec![NameSegment::new(rng), NameSegment::new(rng)]);
    let stored = name.into_accumulator(&setup).into_bytes();
    let read = Name::new(NameAccumulator::parse_bytes(&stored).unwrap(), vec![]);
    assert!(read.is_root());
    assert_eq!(read.into_accumulator(&setup).into_bytes(), stored);
    // Segments added after the round trip lead where they led before it.
    let more = NameSegment::new(rng);
    assert!(read
        .with_segments_added(vec![more.clone()])
        .into_accumulator(&setup)
        .equals(&name.with_segments_added(vec![more]).into_accumulator(&setup)));
    let mut up = name.clone();
    up.up();
    assert_eq!(up.segment_count(), 1);
    up.add_segments(vec![name.get_segments()[1].clone()]);
    assert!(up.equals(&name));
}

#[test]
fn the_rsa_2048_setup_has_the_challenge_modulus() {
    let rng = &mut rand::thread_rng();
    assert_eq!(RSA_2048_MODULUS[0], 0xc7);
    assert_eq!(RSA_2048_MODULUS[255], 0xe5);
    let challenge = AccumulatorSetup::from_rsa_2048(rng);
    let given = AccumulatorSetup::with_modulus(&RSA_2048_MODULUS, rng).unwrap();
    // From the same state the same segments lead to the same state under
    // the same modulus, whatever the generators are.
    let start = NameAccumulator::empty(&challenge).into_bytes();
    let segments = vec![NameSegment::new(rng), NameSegment::new(rng)];
    let mut one = NameAccumulator::parse_bytes(&start).unwrap();
    one.add(&segments, &challenge);
    let mut two = NameAccumulator::parse_bytes(&start).unwrap();
    two.add(&segments, &given);
    assert_eq!(one.into_bytes(), two.into_bytes());
    // Under another modulus they lead elsewhere.
    let other = AccumulatorSetup::with_modulus(&[0xffu8; 256], rng).unwrap();
    let mut three = NameAccumulator::parse_bytes(&start).unwrap();
    three.add(&segments, &other);
    let mut four = NameAccumulator::parse_bytes(&start).unwrap();
    four.add(&segments, &challenge);
    assert_ne!(three.into_bytes(), four.into_bytes());
}
