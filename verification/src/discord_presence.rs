//! The rich presence shown for the player: the names of maps, races and
//! specialisations, what is remembered of them, and the texts built from them.
use vstd::prelude::*;
use std::collections::HashMap;
use crate::decimal::{append_decimal, decimal_chars};

verus! {

broadcast use vstd::std_specs::hash::group_hash_axioms;

/// Receives the events of the presence client.
pub struct Handlers;

/// A map as the game's API describes it.
pub struct ApiMapData {
    pub id: u16,
    pub name: String,
    pub default_floor: u16,
    pub region_id: u16,
    pub continent_id: u16,
}

/// A sector of a map.
pub struct ApiContinentSectorData {
    pub name: String,
}

/// A map of a continent floor with its sectors, in the order in which the
/// reply listed them.
pub struct ApiContinentData {
    pub name: String,
    pub sectors: Vec<(String, ApiContinentSectorData)>,
}

/// A specialisation as the game's API describes it.
pub struct ApiSpecData {
    pub name: String,
    pub profession: String,
    pub elite: bool,
}

/// The name of race number `race`, as the map of races holds it.
pub open spec fn race_names() -> Map<u16, Seq<char>> {
    map![
        0u16 => "Asuran"@,
        1u16 => "Charr"@,
        2u16 => "Human"@,
        3u16 => "Norn"@,
        4u16 => "Sylvari"@,
    ]
}

/// The names of the playable races by their number.
pub fn get_race_map() -> (m: HashMap<u16, String>)
    ensures
        m@.dom() == race_names().dom(),
        forall|r: u16| #[trigger] m@.contains_key(r) ==> m@[r]@ == race_names()[r],
{
    let mut m: HashMap<u16, String> = HashMap::new();
    m.insert(0, "Asuran".to_owned());
    m.insert(1, "Charr".to_owned());
    m.insert(2, "Human".to_owned());
    m.insert(3, "Norn".to_owned());
    m.insert(4, "Sylvari".to_owned());
    assert(m@.dom() =~= race_names().dom());
    m
}

/// The text shown for a race: its name, or nothing for an unknown race.
pub open spec fn race_label(races: Map<u16, String>, race: u16) -> Seq<char> {
    if races.contains_key(race) {
        races[race]@
    } else {
        Seq::empty()
    }
}

/// The text shown for race number `race`.
pub fn race_name(races: &HashMap<u16, String>, race: u16) -> (s: String)
    ensures
        s@ == race_label(races@, race),
{
    match races.get(&race) {
        Some(name) => name.clone(),
        None => String::new(),
    }
}

/// A race that the map of races holds is shown by the name the map gives it,
/// whatever its number; a race that the map does not hold is shown as nothing.
pub proof fn lemma_race_shown_by_name(races: Map<u16, String>, race: u16)
    ensures
        races.contains_key(race) ==> race_label(races, race) == races[race]@,
        !races.contains_key(race) ==> race_label(races, race).len() == 0,
{
}

/// With the map of playable races, each of the five races is shown by its
/// own name, and every other number by nothing.
pub proof fn lemma_playable_race_names(races: Map<u16, String>, race: u16)
    requires
        races.dom() == race_names().dom(),
        forall|r: u16| #[trigger] races.contains_key(r) ==> races[r]@ == race_names()[r],
    ensures
        race <= 4 ==> race_label(races, race) == race_names()[race],
        race > 4 ==> race_label(races, race).len() == 0,
        race == 4 ==> race_label(races, race) == "Sylvari"@,
        race == 0 ==> race_label(races, race) == "Asuran"@,
{
    assert(race_names().contains_key(0u16) && race_names().contains_key(1u16)
        && race_names().contains_key(2u16) && race_names().contains_key(3u16)
        && race_names().contains_key(4u16));
    if race <= 4 {
        assert(races.contains_key(race));
    } else {
        assert(!race_names().contains_key(race));
    }
}

/// The name shown for a specialisation: its own name when it is an elite
/// specialisation, else the name of its profession.
pub fn spec_display_name(data: &ApiSpecData) -> (s: String)
    ensures
        s@ == if data.elite {
            data.name@
        } else {
            data.profession@
        },
{
    if data.elite == true {
        data.name.clone()
    } else {
        data.profession.clone()
    }
}

/// The name of the lobby map of the fractals, whose sectors name the fractal.
pub open spec fn fractal_lobby_name() -> Seq<char> {
    "Fractals of the Mists"@
}

/// Whether the map is the fractal lobby, whose name is replaced by that of
/// one of its sectors.
pub fn is_fractal_lobby(map: &ApiMapData) -> (b: bool)
    ensures
        b == (map.name@ == fractal_lobby_name()),
{
    let lobby = String::from_str("Fractals of the Mists");
    map.name == lobby
}

/// The name of the first sector listed, if any.
pub fn fractal_sector_name(data: &ApiContinentData) -> (s: Option<String>)
    ensures
        s is Some <==> data.sectors@.len() > 0,
        s matches Some(n) ==> n@ == data.sectors@[0].1.name@,
{
    if data.sectors.len() == 0 {
        None
    } else {
        Some(data.sectors[0].1.name.clone())
    }
}

/// The text shown for a location: its name when known, else "Unknown Location".
pub open spec fn location_label(locations: Map<u16, String>, map_id: u16) -> Seq<char> {
    if locations.contains_key(map_id) {
        locations[map_id]@
    } else {
        "Unknown Location"@
    }
}

/// The text shown for a specialisation: its name when known, else
/// "Unknown Profession".
pub open spec fn spec_label(specs: Map<u16, String>, spec: u16) -> Seq<char> {
    if specs.contains_key(spec) {
        specs[spec]@
    } else {
        "Unknown Profession"@
    }
}

/// The names of the maps and specialisations looked up so far.
pub struct PresenceCache {
    locations: HashMap<u16, String>,
    specs: HashMap<u16, String>,
}

impl PresenceCache {
    /// The map names known, by map id.
    pub closed spec fn locations(&self) -> Map<u16, String> {
        self.locations@
    }

    /// The specialisation names known, by specialisation id.
    pub closed spec fn specs(&self) -> Map<u16, String> {
        self.specs@
    }

    /// A cache that knows nothing yet.
    pub fn new() -> (c: PresenceCache)
        ensures
            c.locations() == Map::<u16, String>::empty(),
            c.specs() == Map::<u16, String>::empty(),
    {
        PresenceCache { locations: HashMap::new(), specs: HashMap::new() }
    }

    /// Whether the name of the map still has to be looked up.
    pub fn needs_location(&self, map_id: u16) -> (b: bool)
        ensures
            b == !self.locations().contains_key(map_id),
    {
        !self.locations.contains_key(&map_id)
    }

    /// Whether the name of the specialisation still has to be looked up.
    pub fn needs_spec(&self, spec: u16) -> (b: bool)
        ensures
            b == !self.specs().contains_key(spec),
    {
        !self.specs.contains_key(&spec)
    }

    /// Remembers the name of a map.
    pub fn record_location(&mut self, map_id: u16, name: String)
        ensures
            final(self).locations() == old(self).locations().insert(map_id, name),
            final(self).specs() == old(self).specs(),
    {
        self.locations.insert(map_id, name);
    }

    /// Remembers the name of a specialisation.
    pub fn record_spec(&mut self, spec: u16, name: String)
        ensures
            final(self).specs() == old(self).specs().insert(spec, name),
            final(self).locations() == old(self).locations(),
    {
        self.specs.insert(spec, name);
    }

    /// The text shown for a map.
    pub fn location_name(&self, map_id: u16) -> (s: String)
        ensures
            s@ == location_label(self.locations(), map_id),
    {
        match self.locations.get(&map_id) {
            Some(name) => name.clone(),
            None => String::from_str("Unknown Location"),
        }
    }

    /// The text shown for a specialisation.
    pub fn spec_name(&self, spec: u16) -> (s: String)
        ensures
            s@ == spec_label(self.specs(), spec),
    {
        match self.specs.get(&spec) {
            Some(name) => name.clone(),
            None => String::from_str("Unknown Profession"),
        }
    }
}

/// The first line of the presence: `name (race specialisation)`.
pub open spec fn details_text(name: Seq<char>, race: Seq<char>, spec: Seq<char>) -> Seq<char> {
    name + " ("@ + race + " "@ + spec + ")"@
}

/// The second line of the presence, and the caption of its picture:
/// `Exploring location`.
pub open spec fn exploring_text(location: Seq<char>) -> Seq<char> {
    "Exploring "@ + location
}

/// The first line of the presence.
pub fn presence_details(name: &str, race: &str, spec: &str) -> (s: String)
    ensures
        s@ == details_text(name@, race@, spec@),
{
    let mut s = String::from_str(name);
    s.append(" (");
    s.append(race);
    s.append(" ");
    s.append(spec);
    s.append(")");
    s
}

/// The second line of the presence.
pub fn presence_state(location: &str) -> (s: String)
    ensures
        s@ == exploring_text(location@),
{
    let mut s = String::from_str("Exploring ");
    s.append(location);
    s
}

/// The two lines of the presence for a character.
pub struct PresenceText {
    pub details: String,
    pub state: String,
}

impl PresenceCache {
    /// The presence of a character of race `race` and specialisation `spec`
    /// on map `map_id`, from what is known so far.
    pub fn presence_text(
        &self,
        races: &HashMap<u16, String>,
        name: &str,
        race: u16,
        spec: u16,
        map_id: u16,
    ) -> (t: PresenceText)
        ensures
            t.details@ == details_text(
                name@,
                race_label(races@, race),
                spec_label(self.specs(), spec),
            ),
            t.state@ == exploring_text(location_label(self.locations(), map_id)),
    {
        let race_text = race_name(races, race);
        let spec_text = self.spec_name(spec);
        let location = self.location_name(map_id);
        PresenceText {
            details: presence_details(name, race_text.as_str(), spec_text.as_str()),
            state: presence_state(location.as_str()),
        }
    }
}

/// A name that was remembered is what is shown from then on, and what is
/// shown for other ids does not change; nor is it looked up again.
pub proof fn lemma_recorded_location_is_shown(
    locations: Map<u16, String>,
    map_id: u16,
    name: String,
    other: u16,
)
    requires
        other != map_id,
    ensures
        location_label(locations.insert(map_id, name), map_id) == name@,
        location_label(locations.insert(map_id, name), other) == location_label(locations, other),
        locations.insert(map_id, name).contains_key(map_id),
{
}

/// The same for specialisations.
pub proof fn lemma_recorded_spec_is_shown(specs: Map<u16, String>, spec: u16, name: String, other: u16)
    requires
        other != spec,
    ensures
        spec_label(specs.insert(spec, name), spec) == name@,
        spec_label(specs.insert(spec, name), other) == spec_label(specs, other),
        specs.insert(spec, name).contains_key(spec),
{
}

/// The address of a map in the game's API.
pub open spec fn map_url_text(map_id: u16) -> Seq<char> {
    "https://api.guildwars2.com/v2/maps/"@ + decimal_chars(map_id as nat)
}

/// The address of a specialisation in the game's API.
pub open spec fn spec_url_text(spec: u16) -> Seq<char> {
    "https://api.guildwars2.com/v2/specializations/"@ + decimal_chars(spec as nat)
}

/// The address of a map of a continent floor in the game's API.
pub open spec fn floor_map_url_text(continent: u16, floor: u16, region: u16, map_id: u16) -> Seq<char> {
    "https://api.guildwars2.com/v2/continents/"@ + decimal_chars(continent as nat) + "/floors/"@
        + decimal_chars(floor as nat) + "/regions/"@ + decimal_chars(region as nat) + "/maps/"@
        + decimal_chars(map_id as nat)
}

/// The address of a map in the game's API.
pub fn map_url(map_id: u16) -> (s: String)
    ensures
        s@ == map_url_text(map_id),
{
    let mut s = String::from_str("https://api.guildwars2.com/v2/maps/");
    append_decimal(&mut s, map_id as u32);
    s
}

/// The address of a specialisation in the game's API.
pub fn spec_url(spec: u16) -> (s: String)
    ensures
        s@ == spec_url_text(spec),
{
    let mut s = String::from_str("https://api.guildwars2.com/v2/specializations/");
    append_decimal(&mut s, spec as u32);
    s
}

/// The address of the continent floor map that holds the sectors of `map`.
pub fn floor_map_url(map: &ApiMapData) -> (s: String)
    ensures
        s@ == floor_map_url_text(map.continent_id, map.default_floor, map.region_id, map.id),
{
    let mut s = String::from_str("https://api.guildwars2.com/v2/continents/");
    append_decimal(&mut s, map.continent_id as u32);
    s.append("/floors/");
    append_decimal(&mut s, map.default_floor as u32);
    s.append("/regions/");
    append_decimal(&mut s, map.region_id as u32);
    s.append("/maps/");
    append_decimal(&mut s, map.id as u32);
    s
}

/// Ends the presence; there is nothing to release.
pub fn teardown() {
}

} // verus!
