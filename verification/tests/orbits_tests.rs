use intcode::orbits::{parse_orbits, OrbitalMap};

#[test]
fn sample_orbital_map_returns_correct_number_of_orbits() {
    let sample_orbits = vec![
        String::from("COM)B"),
        String::from("B)C"),
        String::from("C)D"),
        String::from("D)E"),
        String::from("E)F"),
        String::from("B)G"),
        String::from("G)H"),
        String::from("D)I"),
        String::from("E)J"),
        String::from("J)K"),
        String::from("K)L"),
    ];
    let raw_orbits = parse_orbits(sample_orbits);
    let orbital_map = OrbitalMap::new(raw_orbits);

    assert_eq!(42, orbital_map.total_orbit_count());
}

#[test]
fn sample_orbital_map_returns_correct_number_of_orbital_transfers() {
    let sample_orbits = vec![
        String::from("COM)B"),
        String::from("B)C"),
        String::from("C)D"),
        String::from("D)E"),
        String::from("E)F"),
        String::from("B)G"),
        String::from("G)H"),
        String::from("D)I"),
        String::from("E)J"),
        String::from("J)K"),
        String::from("K)L"),
        String::from("K)YOU"),
        String::from("I)SAN"),
    ];
    let raw_orbits = parse_orbits(sample_orbits);
    let orbital_map = OrbitalMap::new(raw_orbits);

    assert_eq!(
        4,
        orbital_map
            .num_transfers(&String::from("YOU"), &String::from("SAN"))
            .unwrap()
    );
}

#[test]
fn sample_2_orbital_map_returns_correct_number_of_orbital_transfers() {
    let sample_orbits = vec![
        String::from("COM)A"),
        String::from("A)B"),
        String::from("B)C"),
        String::from("C)D"),
        String::from("A)YOU"),
        String::from("D)SAN"),
    ];
    let raw_orbits = parse_orbits(sample_orbits);
    let orbital_map = OrbitalMap::new(raw_orbits);

    assert_eq!(
        3,
        orbital_map
            .num_transfers(&String::from("YOU"), &String::from("SAN"))
            .unwrap()
    );
}

#[test]
fn a_missing_object_has_no_transfer_count() {
    let raw_orbits = parse_orbits(vec![String::from("COM)A")]);
    let orbital_map = OrbitalMap::new(raw_orbits);
    assert_eq!(
        None,
        orbital_map.num_transfers(&String::from("A"), &String::from("NOPE"))
    );
}
