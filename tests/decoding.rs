use bitter::{BitReader, LittleEndianReader};
use replay_actors::network::normalize_object;
use replay_actors::{Rotation, SpawnTrajectory, Trajectory, Vector};

#[test]
fn network_test_decode_vector() {
    let mut bitter = LittleEndianReader::new(&[0b0000_0110, 0b0000_1000, 0b1101_1000, 0b0000_1101]);
    let v = Vector::decode(&mut bitter, 5).unwrap();
    assert_eq!(v, Vector { bias: 128, dx: 128, dy: 128, dz: 221 });
}

#[test]
fn network_test_decode_vector_unchecked() {
    let mut bitter = LittleEndianReader::new(&[0b0000_0110, 0b0000_1000, 0b1101_1000, 0b0000_1101]);
    let v = Vector::decode_unchecked(&mut bitter, 5);
    assert_eq!(v, Vector { bias: 128, dx: 128, dy: 128, dz: 221 });
}

#[test]
fn network_test_decode_rotation() {
    let mut bitter = LittleEndianReader::new(&[0b0000_0101, 0b0000_0000]);
    let v = Rotation::decode(&mut bitter).unwrap();
    assert_eq!(v, Rotation { yaw: Some(2), pitch: None, roll: None });
}

#[test]
fn network_test_decode_rotation_unchecked() {
    let mut bitter = LittleEndianReader::new(&[0b0000_0101, 0b0000_0000]);
    let v = Rotation::decode_unchecked(&mut bitter);
    assert_eq!(v, Rotation { yaw: Some(2), pitch: None, roll: None });
}

#[test]
fn models_test_decode_vector() {
    let mut bitter = LittleEndianReader::new(&[0b0000_0110, 0b0000_1000, 0b1101_1000, 0b0000_1101]);
    let v = Vector::decode(&mut bitter, 5).unwrap();
    assert_eq!(v, Vector { bias: 128, dx: 128, dy: 128, dz: 221 });
}

#[test]
fn models_test_decode_vector_unchecked() {
    let mut bitter = LittleEndianReader::new(&[0b0000_0110, 0b0000_1000, 0b1101_1000, 0b0000_1101]);
    let v = Vector::decode_unchecked(&mut bitter, 5);
    assert_eq!(v, Vector { bias: 128, dx: 128, dy: 128, dz: 221 });
}

#[test]
fn models_test_decode_rotation() {
    let mut bitter = LittleEndianReader::new(&[0b0000_0101, 0b0000_0000]);
    let v = Rotation::decode(&mut bitter).unwrap();
    assert_eq!(v, Rotation { yaw: Some(2), pitch: None, roll: None });
}

#[test]
fn models_test_decode_rotation_unchecked() {
    let mut bitter = LittleEndianReader::new(&[0b0000_0101, 0b0000_0000]);
    let v = Rotation::decode_unchecked(&mut bitter);
    assert_eq!(v, Rotation { yaw: Some(2), pitch: None, roll: None });
}

#[test]
fn vector_newer_version_reads_extra_selector_bit() {
    let mut bits = LittleEndianReader::new(&[37, 32, 248, 3]);
    let v = Vector::decode(&mut bits, 7).unwrap();
    assert_eq!(v, Vector { bias: 64, dx: 1, dy: 2, dz: 127 });
    assert_eq!(bits.read_bits(6), Some(0));
}

#[test]
fn vector_older_version_reads_four_selector_bits() {
    let mut bits = LittleEndianReader::new(&[37, 32, 248, 3]);
    let v = Vector::decode(&mut bits, 5).unwrap();
    assert_eq!(v, Vector { bias: 64, dx: 2, dy: 4, dz: 126 });
    assert_eq!(bits.read_bits(7), Some(1));
}

#[test]
fn vector_widest_size_in_newer_version() {
    let mut bits = LittleEndianReader::new(&[117, 0, 0, 64, 0, 0, 40, 0, 0, 0]);
    let v = Vector::decode(&mut bits, 7).unwrap();
    assert_eq!(v, Vector { bias: 4194304, dx: 3, dy: 4, dz: 5 });
}

#[test]
fn vector_decode_depends_only_on_consumed_bits() {
    let mut a = LittleEndianReader::new(&[37, 32, 248, 3]);
    let mut b = LittleEndianReader::new(&[37, 32, 248, 255, 17]);
    let va = Vector::decode(&mut a, 7);
    let vb = Vector::decode(&mut b, 7);
    assert_eq!(va, vb);
    let mut c = LittleEndianReader::new(&[37, 32, 248, 3]);
    assert_eq!(Vector::decode(&mut c, 7), va);
}

#[test]
fn vector_truncated_is_none() {
    let mut bits = LittleEndianReader::new(&[0b0000_0110]);
    assert_eq!(Vector::decode(&mut bits, 5), None);
    let mut empty = LittleEndianReader::new(&[]);
    assert_eq!(Vector::decode(&mut empty, 7), None);
}

#[test]
fn vector_checked_and_unchecked_agree() {
    let inputs: [[u8; 10]; 3] = [
        [117, 0, 0, 64, 0, 0, 40, 0, 0, 0],
        [37, 32, 248, 3, 0, 0, 0, 0, 0, 0],
        [255, 255, 255, 255, 255, 255, 255, 255, 255, 255],
    ];
    for input in inputs.iter() {
        for version in [5, 7] {
            let mut a = LittleEndianReader::new(input);
            let mut b = LittleEndianReader::new(input);
            let checked = Vector::decode(&mut a, version).unwrap();
            let unchecked = Vector::decode_unchecked(&mut b, version);
            assert_eq!(checked, unchecked);
            assert_eq!(a.read_bits(4), b.read_bits(4));
        }
    }
}

#[test]
fn rotation_all_flags_clear() {
    let mut bits = LittleEndianReader::new(&[0, 0, 0, 0]);
    let r = Rotation::decode(&mut bits).unwrap();
    assert_eq!(r, Rotation { yaw: None, pitch: None, roll: None });
    assert_eq!(bits.read_bits(5), Some(0));
}

#[test]
fn rotation_single_flags() {
    let mut yaw = LittleEndianReader::new(&[253, 1, 0, 0]);
    assert_eq!(
        Rotation::decode(&mut yaw).unwrap(),
        Rotation { yaw: Some(-2), pitch: None, roll: None }
    );
    let mut pitch = LittleEndianReader::new(&[22, 0, 0, 0]);
    assert_eq!(
        Rotation::decode(&mut pitch).unwrap(),
        Rotation { yaw: None, pitch: Some(5), roll: None }
    );
    let mut roll = LittleEndianReader::new(&[4, 4, 0, 0]);
    assert_eq!(
        Rotation::decode(&mut roll).unwrap(),
        Rotation { yaw: None, pitch: None, roll: Some(-128) }
    );
}

#[test]
fn rotation_all_components_and_unchecked() {
    let input = [3, 10, 28, 0];
    let mut a = LittleEndianReader::new(&input);
    let mut b = LittleEndianReader::new(&input);
    let expected = Rotation { yaw: Some(1), pitch: Some(2), roll: Some(3) };
    assert_eq!(Rotation::decode(&mut a).unwrap(), expected);
    assert_eq!(Rotation::decode_unchecked(&mut b), expected);
}

#[test]
fn rotation_truncated_is_none() {
    let mut bits = LittleEndianReader::new(&[0b0000_0001]);
    assert_eq!(Rotation::decode(&mut bits), None);
}

#[test]
fn trajectory_shapes() {
    let input = [37, 32, 248, 63, 0];
    let mut none = LittleEndianReader::new(&input);
    assert_eq!(
        Trajectory::from_spawn(&mut none, SpawnTrajectory::Empty, 7),
        Some(Trajectory { location: None, rotation: None })
    );
    assert_eq!(none.read_bits(8), Some(37));
    let location = Vector { bias: 64, dx: 1, dy: 2, dz: 127 };
    let mut loc = LittleEndianReader::new(&input);
    assert_eq!(
        Trajectory::from_spawn(&mut loc, SpawnTrajectory::Location, 7),
        Some(Trajectory { location: Some(location), rotation: None })
    );
    let mut both = LittleEndianReader::new(&input);
    assert_eq!(
        Trajectory::from_spawn(&mut both, SpawnTrajectory::LocationAndRotation, 7),
        Some(Trajectory {
            location: Some(location),
            rotation: Some(Rotation { yaw: Some(7), pitch: None, roll: None }),
        })
    );
    let mut short = LittleEndianReader::new(&input[..4]);
    assert_eq!(Trajectory::from_spawn(&mut short, SpawnTrajectory::LocationAndRotation, 7), None);
}

#[test]
fn trajectory_unchecked_matches_checked() {
    let input = [37, 32, 248, 63, 0, 0, 0, 0, 0, 0, 0, 0, 0];
    for shape in [SpawnTrajectory::Empty, SpawnTrajectory::Location, SpawnTrajectory::LocationAndRotation] {
        let mut a = LittleEndianReader::new(&input);
        let mut b = LittleEndianReader::new(&input);
        assert_eq!(
            Trajectory::from_spawn(&mut a, shape, 7).unwrap(),
            Trajectory::from_spawn_unchecked(&mut b, shape, 7)
        );
    }
}

#[test]
fn normalize_object_names() {
    assert_eq!(
        normalize_object("stadium_foggy_p.TheWorld:PersistentLevel.VehiclePickup_Boost_TA_30"),
        "TheWorld:PersistentLevel.VehiclePickup_Boost_TA"
    );
    assert_eq!(
        normalize_object("x.TheWorld:PersistentLevel.CrowdActor_TA_2"),
        "TheWorld:PersistentLevel.CrowdActor_TA"
    );
    assert_eq!(
        normalize_object("TheWorld:PersistentLevel.CrowdManager_TA_1"),
        "TheWorld:PersistentLevel.CrowdManager_TA"
    );
    assert_eq!(
        normalize_object("a.TheWorld:PersistentLevel.InMapScoreboard_TA_0"),
        "TheWorld:PersistentLevel.InMapScoreboard_TA"
    );
    assert_eq!(
        normalize_object("b.TheWorld:PersistentLevel.BreakOutActor_Platform_TA_9"),
        "TheWorld:PersistentLevel.BreakOutActor_Platform_TA"
    );
    assert_eq!(normalize_object("Archetypes.Ball.Ball_Default"), "Archetypes.Ball.Ball_Default");
}
