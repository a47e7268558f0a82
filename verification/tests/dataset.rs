use rustdemo::city::{load_city_data, City, CityData, CityGeometry};
use rustdemo::coordinate::Coordinate;
use rustdemo::country::{get_largest_city_for_each_country, largest_city_for_each_country};
use rustdemo::query::{filter_cities, largest_city, CityLine, Filter};

fn data(name: &str, country: Option<&str>, code: &str, admin1: Option<&str>, zone: &str, population: i64) -> CityData {
    CityData {
        coordinates: Coordinate::new(1, 2),
        cou_name_en: country.map(|c| c.to_string()),
        label_en: country.map(|c| c.to_string()),
        feature_code: "PPL".to_string(),
        population,
        dem: 0,
        geoname_id: name.to_string(),
        name: name.to_string(),
        admin1_code: admin1.map(|c| c.to_string()),
        admin2_code: None,
        admin3_code: None,
        admin4_code: None,
        feature_class: "P".to_string(),
        country_code: code.to_string(),
        timezone: zone.to_string(),
        modification_date: "2022-01-01".to_string(),
    }
}

fn record(fields: CityData) -> City {
    City {
        datasetid: "d".to_string(),
        recordid: "r".to_string(),
        fields,
        record_timestamp: "t".to_string(),
        geometry: CityGeometry::new(Coordinate::new(7, 8)),
    }
}

fn sample() -> Vec<CityData> {
    vec![
        data("Uppsala", Some("Sweden"), "SE", Some("21"), "Europe/Stockholm", 150_000),
        data("Phoenix", Some("United States"), "US", Some("AZ"), "America/Phoenix", 1_600_000),
        data("Stockholm", Some("Sweden"), "SE", Some("26"), "Europe/Stockholm", 1_500_000),
        data("Nowhere", None, "XX", None, "Etc/UTC", 10),
        data("Tucson", Some("United States"), "US", Some("AZ"), "America/Phoenix", 540_000),
        data("Taipei", Some("Taiwan"), "TW", Some("03"), "Asia/Taipei", 7_800_000),
        data("Göteborg", Some("Sweden"), "SE", Some("28"), "Europe/Stockholm", 1_500_000),
        data("Elsewhere", None, "XX", None, "Etc/UTC", 10),
        data("Mesa", Some("United States"), "US", Some("AZ"), "America/Phoenix", 1_600_000),
    ]
}

fn records() -> Vec<City> {
    sample().into_iter().map(record).collect()
}

fn names(cities: &[CityData]) -> Vec<String> {
    cities.iter().map(|c| c.name.clone()).collect()
}

#[test]
fn largest_city_of_a_country() {
    let cities = records();
    assert_eq!(largest_city(&cities, "SE"), Some(("Stockholm".to_string(), 1_500_000)));
    assert_eq!(largest_city(&cities, "TW"), Some(("Taipei".to_string(), 7_800_000)));
}

#[test]
fn largest_city_takes_the_first_of_equals() {
    let cities = records();
    assert_eq!(largest_city(&cities, "US"), Some(("Phoenix".to_string(), 1_600_000)));
    assert_eq!(largest_city(&cities, "XX"), Some(("Nowhere".to_string(), 10)));
}

#[test]
fn largest_city_of_an_unknown_country() {
    let cities = records();
    assert_eq!(largest_city(&cities, "to"), None);
    assert_eq!(largest_city(&cities, "se"), None);
    assert_eq!(largest_city(&Vec::new(), "SE"), None);
}

#[test]
fn filter_by_time_zone() {
    let lines = filter_cities(&records(), Filter::TimeZone("Europe/Stockholm".to_string()));
    let got: Vec<&str> = lines.iter().map(|l| l.name.as_str()).collect();
    assert_eq!(got, vec!["Uppsala", "Stockholm", "Göteborg"]);
    assert_eq!(
        lines[0],
        CityLine {
            name: "Uppsala".to_string(),
            country_code: "SE".to_string(),
            admin1_code: "21".to_string(),
            timezone: "Europe/Stockholm".to_string(),
        }
    );
}

#[test]
fn filter_by_division() {
    let lines = filter_cities(&records(), Filter::Admin1Code("AZ".to_string()));
    let got: Vec<&str> = lines.iter().map(|l| l.name.as_str()).collect();
    assert_eq!(got, vec!["Phoenix", "Tucson", "Mesa"]);
    assert!(filter_cities(&records(), Filter::Admin1Code("N/A".to_string())).is_empty());
}

#[test]
fn filter_by_country_lists_missing_division_as_not_available() {
    let lines = filter_cities(&records(), Filter::CountryCode("XX".to_string()));
    assert_eq!(lines.len(), 2);
    assert_eq!(lines[0].name, "Nowhere");
    assert_eq!(lines[0].admin1_code, "N/A");
    assert_eq!(lines[1].name, "Elsewhere");
    assert_eq!(lines[1].timezone, "Etc/UTC");
    assert!(filter_cities(&records(), Filter::CountryCode("TO".to_string())).is_empty());
}

#[test]
fn city_matches_and_line() {
    let city = data("Lund", Some("Sweden"), "SE", None, "Europe/Stockholm", 90_000);
    assert!(city.matches(&Filter::CountryCode("SE".to_string())));
    assert!(!city.matches(&Filter::CountryCode("S".to_string())));
    assert!(!city.matches(&Filter::Admin1Code("SE".to_string())));
    assert!(city.matches(&Filter::TimeZone("Europe/Stockholm".to_string())));
    assert_eq!(city.line().admin1_code, "N/A");
}

#[test]
fn country_name_falls_back_to_the_code() {
    let named = data("Lund", Some("Sweden"), "SE", None, "z", 1);
    let bare = data("Nowhere", None, "XX", None, "z", 1);
    assert_eq!(named.country_name_eng(), "Sweden");
    assert_eq!(bare.country_name_eng(), "XX");
    assert_eq!(named.country_name(), "Sweden");
    assert_eq!(named.duplicate(), named);
}

#[test]
fn largest_of_each_country_in_order_of_appearance() {
    let largest = largest_city_for_each_country(sample());
    assert_eq!(names(&largest), vec!["Stockholm", "Phoenix", "Nowhere", "Taipei"]);
    assert_eq!(largest[0].population, 1_500_000);
    assert!(largest_city_for_each_country(Vec::new()).is_empty());
}

#[test]
fn largest_of_each_country_groups_by_name_then_code() {
    let cities = vec![
        data("A", None, "SE", None, "z", 5),
        data("B", Some("SE"), "QQ", None, "z", 9),
        data("C", Some("Sweden"), "SE", None, "z", 7),
    ];
    // A has no name, so its code stands for it; B is named like that code.
    let largest = largest_city_for_each_country(cities);
    assert_eq!(names(&largest), vec!["B", "C"]);
}

#[test]
fn largest_of_each_country_in_order_of_codes() {
    let largest = get_largest_city_for_each_country(sample());
    assert_eq!(names(&largest), vec!["Stockholm", "Taipei", "Phoenix", "Nowhere"]);
    let codes: Vec<&str> = largest.iter().map(|c| c.country_code.as_str()).collect();
    assert_eq!(codes, vec!["SE", "TW", "US", "XX"]);
    assert!(get_largest_city_for_each_country(Vec::new()).is_empty());
}

#[test]
fn codes_are_ordered_as_texts() {
    let cities = vec![
        data("lower", None, "se", None, "z", 1),
        data("long", None, "SEE", None, "z", 1),
        data("upper", None, "SE", None, "z", 1),
        data("accent", None, "É", None, "z", 1),
        data("empty", None, "", None, "z", 1),
        data("again", None, "SE", None, "z", 2),
    ];
    let largest = get_largest_city_for_each_country(cities);
    assert_eq!(names(&largest), vec!["empty", "again", "long", "lower", "accent"]);
}

#[test]
fn geometry_gives_the_position() {
    let city = record(data("Lund", Some("Sweden"), "SE", None, "z", 1));
    assert_eq!(city.fields.coordinates, Coordinate::new(1, 2));
    let located = city.clone().into_data();
    assert_eq!(located.coordinates, Coordinate::new(7, 8));
    assert_eq!(located.name, "Lund");
    let all = load_city_data(vec![city.clone(), city]);
    assert_eq!(all.len(), 2);
    assert_eq!(all[1].coordinates, Coordinate::new(7, 8));
    assert_eq!(CityGeometry::new(Coordinate::new(3, 4)).coordinates(), Coordinate::new(3, 4));
}
