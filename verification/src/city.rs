//! Records of the city dataset.

use crate::coordinate::Coordinate;
use vstd::prelude::*;

verus! {

/// The mathematical value of an optional text.
pub open spec fn text_of(text: Option<String>) -> Option<Seq<char>> {
    match text {
        Some(t) => Some(t@),
        None => None,
    }
}

/// An independent copy of an optional text.
pub fn copy_text(text: &Option<String>) -> (copy: Option<String>)
    ensures
        text_of(copy) == text_of(*text),
{
    match text {
        Some(t) => Some(t.clone()),
        None => None,
    }
}

/// What the dataset says of one city.
#[derive(Clone, Debug, PartialEq, Eq)]
pub struct CityData {
    pub coordinates: Coordinate,
    pub cou_name_en: Option<String>,
    pub label_en: Option<String>,
    pub feature_code: String,
    pub population: i64,
    pub dem: i64,
    pub geoname_id: String,
    pub name: String,
    pub admin1_code: Option<String>,
    pub admin2_code: Option<String>,
    pub admin3_code: Option<String>,
    pub admin4_code: Option<String>,
    pub feature_class: String,
    pub country_code: String,
    pub timezone: String,
    pub modification_date: String,
}

/// The mathematical value of a [`CityData`].
pub struct CityDataView {
    pub coordinates: Coordinate,
    pub cou_name_en: Option<Seq<char>>,
    pub label_en: Option<Seq<char>>,
    pub feature_code: Seq<char>,
    pub population: i64,
    pub dem: i64,
    pub geoname_id: Seq<char>,
    pub name: Seq<char>,
    pub admin1_code: Option<Seq<char>>,
    pub admin2_code: Option<Seq<char>>,
    pub admin3_code: Option<Seq<char>>,
    pub admin4_code: Option<Seq<char>>,
    pub feature_class: Seq<char>,
    pub country_code: Seq<char>,
    pub timezone: Seq<char>,
    pub modification_date: Seq<char>,
}

impl View for CityData {
    type V = CityDataView;

    open spec fn view(&self) -> CityDataView {
        CityDataView {
            coordinates: self.coordinates,
            cou_name_en: text_of(self.cou_name_en),
            label_en: text_of(self.label_en),
            feature_code: self.feature_code@,
            population: self.population,
            dem: self.dem,
            geoname_id: self.geoname_id@,
            name: self.name@,
            admin1_code: text_of(self.admin1_code),
            admin2_code: text_of(self.admin2_code),
            admin3_code: text_of(self.admin3_code),
            admin4_code: text_of(self.admin4_code),
            feature_class: self.feature_class@,
            country_code: self.country_code@,
            timezone: self.timezone@,
            modification_date: self.modification_date@,
        }
    }
}

impl CityDataView {
    /// The English name of the city's country where the dataset has one,
    /// and the country code where it has none.
    pub open spec fn country_name_eng(self) -> Seq<char> {
        match self.cou_name_en {
            Some(name) => name,
            None => self.country_code,
        }
    }
}

impl CityData {
    /// The English name of the city's country where the dataset has one,
    /// and the country code where it has none.
    pub fn country_name_eng(&self) -> (name: &str)
        ensures
            name@ == self@.country_name_eng(),
    {
        match &self.cou_name_en {
            Some(x) => x.as_str(),
            None => self.country_code.as_str(),
        }
    }

    /// The text that [`CityData::country_name_eng`] borrows from.
    pub fn country_name(&self) -> (name: &String)
        ensures
            name@ == self@.country_name_eng(),
    {
        match &self.cou_name_en {
            Some(x) => x,
            None => &self.country_code,
        }
    }

    /// An independent copy of this record.
    pub fn duplicate(&self) -> (copy: CityData)
        ensures
            copy@ == self@,
    {
        CityData {
            coordinates: self.coordinates,
            cou_name_en: copy_text(&self.cou_name_en),
            label_en: copy_text(&self.label_en),
            feature_code: self.feature_code.clone(),
            population: self.population,
            dem: self.dem,
            geoname_id: self.geoname_id.clone(),
            name: self.name.clone(),
            admin1_code: copy_text(&self.admin1_code),
            admin2_code: copy_text(&self.admin2_code),
            admin3_code: copy_text(&self.admin3_code),
            admin4_code: copy_text(&self.admin4_code),
            feature_class: self.feature_class.clone(),
            country_code: self.country_code.clone(),
            timezone: self.timezone.clone(),
            modification_date: self.modification_date.clone(),
        }
    }
}

/// The mathematical value of a list of cities.
pub open spec fn records(cities: Seq<CityData>) -> Seq<CityDataView> {
    cities.map_values(|c: CityData| c@)
}

/// Where the dataset's geometry section puts a city.
#[derive(Clone, Debug, PartialEq, Eq)]
pub struct CityGeometry {
    coordinates: Coordinate,
}

impl CityGeometry {
    /// The geometry that puts a city at `coordinates`.
    pub fn new(coordinates: Coordinate) -> (geometry: CityGeometry)
        ensures
            geometry.coordinates() == coordinates,
    {
        CityGeometry { coordinates }
    }

    /// The position this geometry gives.
    #[verifier::when_used_as_spec(spec_coordinates)]
    pub fn coordinates(&self) -> (coordinates: Coordinate)
        ensures
            coordinates == self.coordinates(),
    {
        self.coordinates
    }

    pub closed spec fn spec_coordinates(&self) -> Coordinate {
        self.coordinates
    }
}

/// One record of the dataset as it is stored.
#[derive(Clone, Debug, PartialEq, Eq)]
pub struct City {
    pub datasetid: String,
    pub recordid: String,
    pub fields: CityData,
    pub record_timestamp: String,
    pub geometry: CityGeometry,
}

/// What [`City::into_data`] makes of a record: its fields, with the position
/// taken from the geometry section.
pub open spec fn located(city: City) -> CityDataView {
    CityDataView { coordinates: city.geometry.coordinates(), ..city.fields@ }
}

impl City {
    /// The fields of this record, with the position that its geometry
    /// section gives in place of the one among the fields.
    pub fn into_data(self) -> (data: CityData)
        ensures
            data@ == located(self),
    {
        let mut fields = self.fields;
        fields.coordinates = self.geometry.coordinates();
        fields
    }
}

/// The cities of a dataset that has been read: the fields of every record,
/// in the order of the records, each with the position that its geometry
/// section gives.
pub fn load_city_data(cities: Vec<City>) -> (data: Vec<CityData>)
    ensures
        data@.len() == cities@.len(),
        forall|i: int| 0 <= i < data@.len() ==> (#[trigger] data@[i])@ == located(cities@[i]),
{
    let mut data: Vec<CityData> = Vec::new();
    for city in iter: cities
        invariant
            data@.len() == iter.index(),
            forall|i: int| 0 <= i < data@.len() ==> (#[trigger] data@[i])@ == located(iter.seq()[i]),
    {
        data.push(city.into_data());
    }
    data
}

} // verus!
