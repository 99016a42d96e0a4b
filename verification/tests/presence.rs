use dessa::discord_presence::{
    floor_map_url, fractal_sector_name, get_race_map, is_fractal_lobby, map_url, presence_details,
    presence_state, race_name, spec_display_name, spec_url, ApiContinentData,
    ApiContinentSectorData, ApiMapData, ApiSpecData, PresenceCache,
};

#[test]
fn races_by_number() {
    let m = get_race_map();
    assert_eq!(m.len(), 5);
    assert_eq!(m.get(&0).unwrap(), "Asuran");
    assert_eq!(m.get(&1).unwrap(), "Charr");
    assert_eq!(m.get(&2).unwrap(), "Human");
    assert_eq!(m.get(&3).unwrap(), "Norn");
    assert_eq!(m.get(&4).unwrap(), "Sylvari");
    assert_eq!(race_name(&m, 3), "Norn");
    assert_eq!(race_name(&m, 5), "");
}

#[test]
fn elite_specialisations_show_their_own_name() {
    let elite = ApiSpecData { name: "Reaper".to_string(), profession: "Necromancer".to_string(), elite: true };
    let core = ApiSpecData { name: "Death Magic".to_string(), profession: "Necromancer".to_string(), elite: false };
    assert_eq!(spec_display_name(&elite), "Reaper");
    assert_eq!(spec_display_name(&core), "Necromancer");
}

fn map(name: &str) -> ApiMapData {
    ApiMapData { id: 1177, name: name.to_string(), default_floor: 1, region_id: 28, continent_id: 2 }
}

#[test]
fn the_fractal_lobby_is_recognised() {
    assert!(is_fractal_lobby(&map("Fractals of the Mists")));
    assert!(!is_fractal_lobby(&map("Fractals of the Mist")));
    assert!(!is_fractal_lobby(&map("Lion's Arch")));
}

#[test]
fn the_first_sector_names_the_fractal() {
    let data = ApiContinentData {
        name: "Fractals of the Mists".to_string(),
        sectors: vec![
            ("1".to_string(), ApiContinentSectorData { name: "Nightmare".to_string() }),
            ("2".to_string(), ApiContinentSectorData { name: "Other".to_string() }),
        ],
    };
    assert_eq!(fractal_sector_name(&data).unwrap(), "Nightmare");
    let empty = ApiContinentData { name: String::new(), sectors: vec![] };
    assert!(fractal_sector_name(&empty).is_none());
}

#[test]
fn cache_remembers_names() {
    let mut c = PresenceCache::new();
    assert!(c.needs_location(15));
    assert!(c.needs_spec(27));
    assert_eq!(c.location_name(15), "Unknown Location");
    assert_eq!(c.spec_name(27), "Unknown Profession");
    c.record_location(15, "Queensdale".to_string());
    c.record_spec(27, "Dragonhunter".to_string());
    assert!(!c.needs_location(15));
    assert!(!c.needs_spec(27));
    assert!(c.needs_location(16));
    assert_eq!(c.location_name(15), "Queensdale");
    assert_eq!(c.spec_name(27), "Dragonhunter");
    c.record_location(15, "Fractal".to_string());
    assert_eq!(c.location_name(15), "Fractal");
}

#[test]
fn presence_lines() {
    assert_eq!(presence_details("Tess", "Human", "Firebrand"), "Tess (Human Firebrand)");
    assert_eq!(presence_details("Tess", "", "Unknown Profession"), "Tess ( Unknown Profession)");
    assert_eq!(presence_state("Lion's Arch"), "Exploring Lion's Arch");
    let races = get_race_map();
    let mut c = PresenceCache::new();
    let t = c.presence_text(&races, "Tess", 2, 62, 50);
    assert_eq!(t.details, "Tess (Human Unknown Profession)");
    assert_eq!(t.state, "Exploring Unknown Location");
    c.record_spec(62, "Firebrand".to_string());
    c.record_location(50, "Lion's Arch".to_string());
    let t = c.presence_text(&races, "Tess", 9, 62, 50);
    assert_eq!(t.details, "Tess ( Firebrand)");
    assert_eq!(t.state, "Exploring Lion's Arch");
}

#[test]
fn api_addresses() {
    assert_eq!(map_url(0), "https://api.guildwars2.com/v2/maps/0");
    assert_eq!(map_url(1177), "https://api.guildwars2.com/v2/maps/1177");
    assert_eq!(map_url(65535), "https://api.guildwars2.com/v2/maps/65535");
    assert_eq!(spec_url(62), "https://api.guildwars2.com/v2/specializations/62");
    assert_eq!(
        floor_map_url(&map("Fractals of the Mists")),
        "https://api.guildwars2.com/v2/continents/2/floors/1/regions/28/maps/1177"
    );
}
