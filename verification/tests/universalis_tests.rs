use xivdata::universalis::{
    get_region_worlds, get_world_id, get_world_name, request_url_builder, DatacenterMapping,
    Region, UniversalisError, WorldMapping,
};

fn world_table() -> Vec<WorldMapping> {
    let rows = vec![
        (55, "Lamia"),
        (37, "Mateus"),
        (80, "Cerberus"),
        (83, "Louisoix"),
        (71, "Moogle"),
        (39, "Omega"),
        (401, "Phantom"),
        (97, "Ragnarok"),
        (400, "Sagittarius"),
        (85, "Spriggan"),
        (402, "Alpha"),
        (36, "Lich"),
        (66, "Odin"),
        (56, "Phoenix"),
        (403, "Raiden"),
        (67, "Shiva"),
        (33, "Twintania"),
        (404, "Zodiark"),
    ];
    rows.into_iter()
        .map(|(id, name)| WorldMapping {
            id,
            name: name.to_string(),
        })
        .collect()
}

fn datacenter_table() -> Vec<DatacenterMapping> {
    vec![
        DatacenterMapping {
            name: "Crystal".to_string(),
            region: Region::NorthAmerica,
            worlds: vec![55, 37],
        },
        DatacenterMapping {
            name: "Chaos".to_string(),
            region: Region::Europe,
            worlds: vec![80, 83, 71, 39, 401, 97, 400, 85],
        },
        DatacenterMapping {
            name: "Light".to_string(),
            region: Region::Europe,
            worlds: vec![402, 36, 66, 56, 403, 67, 33, 404],
        },
    ]
}

#[test]
fn test_get_world_name() {
    let worlds = world_table();
    assert_eq!(
        get_world_name(&worlds, 55).expect("get_world_name() failed!"),
        "Lamia"
    );
}

#[test]
fn test_get_world_id() {
    let worlds = world_table();
    assert_eq!(
        get_world_id(&worlds, "Mateus".to_string()).expect("get_world_id() failed!"),
        37
    );
}

#[test]
fn test_world_name_not_found() {
    let worlds = world_table();
    assert!(matches!(
        get_world_name(&worlds, 9999),
        Err(UniversalisError::InvalidWorldId)
    ));
}

#[test]
fn test_world_id_not_found() {
    let worlds = world_table();
    assert!(matches!(
        get_world_id(&worlds, "Atlantis".to_string()),
        Err(UniversalisError::InvalidWorldId)
    ));
}

#[test]
fn test_get_region_worlds() {
    let mut correct = vec![
        "Cerberus".to_string(),
        "Louisoix".to_string(),
        "Moogle".to_string(),
        "Omega".to_string(),
        "Phantom".to_string(),
        "Ragnarok".to_string(),
        "Sagittarius".to_string(),
        "Spriggan".to_string(),
        "Alpha".to_string(),
        "Lich".to_string(),
        "Odin".to_string(),
        "Phoenix".to_string(),
        "Raiden".to_string(),
        "Shiva".to_string(),
        "Twintania".to_string(),
        "Zodiark".to_string(),
    ];
    correct.sort();
    let names = get_region_worlds(&datacenter_table(), &world_table(), Region::Europe)
        .expect("get_region_worlds() failed!");
    assert_eq!(names, correct);
}

#[test]
fn test_get_region_worlds_sorted_regardless_of_input_order() {
    // reverse the table order and each datacenter's world list: the output
    // order must not change
    let mut dcs = datacenter_table();
    dcs.reverse();
    for dc in dcs.iter_mut() {
        dc.worlds.reverse();
    }
    let straight = get_region_worlds(&datacenter_table(), &world_table(), Region::Europe)
        .expect("get_region_worlds() failed!");
    let reversed =
        get_region_worlds(&dcs, &world_table(), Region::Europe).expect("get_region_worlds() failed!");
    assert_eq!(straight, reversed);
}

#[test]
fn test_get_region_worlds_unknown_id_fails() {
    let dcs = vec![DatacenterMapping {
        name: "Chaos".to_string(),
        region: Region::Europe,
        worlds: vec![80, 12345],
    }];
    assert!(matches!(
        get_region_worlds(&dcs, &world_table(), Region::Europe),
        Err(UniversalisError::InvalidWorldId)
    ));
}

#[test]
fn test_get_region_worlds_empty_region() {
    let names = get_region_worlds(&datacenter_table(), &world_table(), Region::Oceania)
        .expect("get_region_worlds() failed!");
    assert!(names.is_empty());
}

#[test]
fn test_request_url_builder() {
    assert_eq!(
        request_url_builder("worlds/"),
        "https://universalis.app/api/v2/worlds/"
    );
    assert_eq!(
        request_url_builder("marketable/"),
        "https://universalis.app/api/v2/marketable/"
    );
}
