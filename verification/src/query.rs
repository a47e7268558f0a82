//! Questions asked of the city dataset.

use crate::city::{City, CityData, CityDataView};
use vstd::prelude::*;

verus! {

/// What a city must match to be listed.
#[derive(Clone, Debug, PartialEq, Eq)]
pub enum Filter {
    /// The city lies in the country with this code.
    CountryCode(String),
    /// The city lies in the first-level division with this code.
    Admin1Code(String),
    /// The city keeps the time of this zone.
    TimeZone(String),
}

/// The mathematical value of a [`Filter`].
pub enum FilterView {
    CountryCode(Seq<char>),
    Admin1Code(Seq<char>),
    TimeZone(Seq<char>),
}

impl View for Filter {
    type V = FilterView;

    open spec fn view(&self) -> FilterView {
        match self {
            Filter::CountryCode(v) => FilterView::CountryCode(v@),
            Filter::Admin1Code(v) => FilterView::Admin1Code(v@),
            Filter::TimeZone(v) => FilterView::TimeZone(v@),
        }
    }
}

/// Whether a city matches a filter. A city without a first-level division
/// matches no filter on the division.
pub open spec fn passes(city: CityDataView, filter: FilterView) -> bool {
    match filter {
        FilterView::CountryCode(v) => city.country_code == v,
        FilterView::Admin1Code(v) => city.admin1_code == Some(v),
        FilterView::TimeZone(v) => city.timezone == v,
    }
}

/// What is listed of a city.
#[derive(Clone, Debug, PartialEq, Eq)]
pub struct CityLine {
    pub name: String,
    pub country_code: String,
    /// The code of the first-level division, or `N/A` where the city has none.
    pub admin1_code: String,
    pub timezone: String,
}

/// The mathematical value of a [`CityLine`].
pub struct CityLineView {
    pub name: Seq<char>,
    pub country_code: Seq<char>,
    pub admin1_code: Seq<char>,
    pub timezone: Seq<char>,
}

impl View for CityLine {
    type V = CityLineView;

    open spec fn view(&self) -> CityLineView {
        CityLineView {
            name: self.name@,
            country_code: self.country_code@,
            admin1_code: self.admin1_code@,
            timezone: self.timezone@,
        }
    }
}

/// The line that lists a city.
pub open spec fn line_of(city: CityDataView) -> CityLineView {
    CityLineView {
        name: city.name,
        country_code: city.country_code,
        admin1_code: match city.admin1_code {
            Some(code) => code,
            None => "N/A"@,
        },
        timezone: city.timezone,
    }
}

/// The line of a record if its city matches `filter`.
pub open spec fn listed(filter: FilterView) -> spec_fn(City) -> Option<CityLineView> {
    |city: City|
        if passes(city.fields@, filter) {
            Some(line_of(city.fields@))
        } else {
            None
        }
}

/// The mathematical value of a list of lines.
pub open spec fn lines_of(lines: Seq<CityLine>) -> Seq<CityLineView> {
    lines.map_values(|l: CityLine| l@)
}

impl CityData {
    /// Whether this city matches `filter`.
    pub fn matches(&self, filter: &Filter) -> (yes: bool)
        ensures
            yes == passes(self@, filter@),
    {
        match filter {
            Filter::CountryCode(v) => self.country_code == *v,
            Filter::Admin1Code(v) => match &self.admin1_code {
                Some(code) => *code == *v,
                None => false,
            },
            Filter::TimeZone(v) => self.timezone == *v,
        }
    }

    /// The line that lists this city.
    pub fn line(&self) -> (line: CityLine)
        ensures
            line@ == line_of(self@),
    {
        CityLine {
            name: self.name.clone(),
            country_code: self.country_code.clone(),
            admin1_code: match &self.admin1_code {
                Some(code) => code.clone(),
                None => "N/A".to_owned(),
            },
            timezone: self.timezone.clone(),
        }
    }
}

/// The lines of the cities that match `filter`, in the order of the records.
pub fn filter_cities(city_data: &Vec<City>, filter: Filter) -> (lines: Vec<CityLine>)
    ensures
        lines_of(lines@) == city_data@.filter_map(listed(filter@)),
{
    let ghost f = listed(filter@);
    let mut lines: Vec<CityLine> = Vec::new();
    let mut k: usize = 0;
    assert(lines_of(lines@) =~= city_data@.take(0).filter_map(f));
    while k < city_data.len()
        invariant
            k <= city_data@.len(),
            f == listed(filter@),
            lines_of(lines@) == city_data@.take(k as int).filter_map(f),
        decreases city_data.len() - k,
    {
        let ghost before = lines_of(lines@);
        let city = &city_data[k];
        if city.fields.matches(&filter) {
            lines.push(city.fields.line());
            assert(lines_of(lines@) =~= before.push(line_of(city.fields@)));
        }
        proof {
            city_data@.lemma_filter_map_take_succ(f, k as int);
            assert(lines_of(lines@) =~= city_data@.take(k + 1).filter_map(f));
        }
        k += 1;
    }
    assert(city_data@.take(k as int) =~= city_data@);
    lines
}

/// The city at `i` lies in the country `code`, none of that country has
/// more people, and none before it has as many.
pub open spec fn is_largest_of(cities: Seq<City>, code: Seq<char>, i: int) -> bool {
    &&& 0 <= i < cities.len()
    &&& cities[i].fields@.country_code == code
    &&& forall|j: int|
        0 <= j < cities.len() && (#[trigger] cities[j]).fields@.country_code == code
            ==> cities[j].fields.population <= cities[i].fields.population
    &&& forall|j: int|
        0 <= j < i && (#[trigger] cities[j]).fields@.country_code == code
            ==> cities[j].fields.population < cities[i].fields.population
}

/// The name and the population of the largest city of the country with the
/// code `country_code`: of several that are equally large, the first among
/// the records. There is none where no record has that code.
pub fn largest_city(city_data: &Vec<City>, country_code: &str) -> (largest: Option<(String, i64)>)
    ensures
        match largest {
            Some((name, population)) => exists|i: int|
                is_largest_of(city_data@, country_code@, i) && name@
                    == (#[trigger] city_data@[i]).fields@.name && population
                    == city_data@[i].fields.population,
            None => forall|i: int|
                0 <= i < city_data@.len() ==> (#[trigger] city_data@[i]).fields@.country_code
                    != country_code@,
        },
{
    let code = country_code.to_owned();
    let mut best: Option<usize> = None;
    let mut k: usize = 0;
    while k < city_data.len()
        invariant
            k <= city_data@.len(),
            code@ == country_code@,
            match best {
                Some(b) => b < k && is_largest_of(city_data@.take(k as int), code@, b as int),
                None => forall|i: int|
                    0 <= i < k ==> (#[trigger] city_data@[i]).fields@.country_code != code@,
            },
        decreases city_data.len() - k,
    {
        let ghost seen = city_data@.take(k as int);
        let ghost next = city_data@.take(k + 1);
        let city = &city_data[k];
        let ghost was = best;
        if city.fields.country_code == code {
            match best {
                Some(b) => {
                    if city.fields.population > city_data[b].fields.population {
                        best = Some(k);
                    }
                },
                None => {
                    best = Some(k);
                },
            }
        }
        proof {
            assert forall|i: int| 0 <= i < k implies next[i] == seen[i] && seen[i]
                == city_data@[i] by {}
            if best is Some {
                let b = best->0 as int;
                assert(next[b] == city_data@[b]);
                assert forall|j: int|
                    0 <= j < next.len() && (#[trigger] next[j]).fields@.country_code
                        == code@ implies next[j].fields.population
                    <= next[b].fields.population by {
                    if j < k {
                        assert(seen[j] == next[j]);
                    }
                }
                assert forall|j: int|
                    0 <= j < b && (#[trigger] next[j]).fields@.country_code == code@ implies next[j].fields.population
                    < next[b].fields.population by {
                    assert(seen[j] == next[j]);
                }
            }
        }
        k += 1;
    }
    assert(city_data@.take(k as int) =~= city_data@);
    match best {
        Some(b) => {
            let city = &city_data[b];
            Some((city.fields.name.clone(), city.fields.population))
        },
        None => None,
    }
}

} // verus!
