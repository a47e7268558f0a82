//! The largest city of each country.

use crate::city::{records, CityData, CityDataView};
use crate::text::{
    lemma_precedes_irreflexive, lemma_precedes_total, lemma_precedes_transitive, precedes,
    text_precedes,
};
use vstd::prelude::*;

verus! {

/// Cities are grouped by the English name of their country.
pub open spec fn by_country_name() -> spec_fn(CityDataView) -> Seq<char> {
    |c: CityDataView| c.country_name_eng()
}

/// Cities are grouped by the code of their country.
pub open spec fn by_country_code() -> spec_fn(CityDataView) -> Seq<char> {
    |c: CityDataView| c.country_code
}

/// The city at `i` is the largest of its group: none of the group has more
/// people, and none before it has as many.
pub open spec fn is_champion(
    cities: Seq<CityDataView>,
    key: spec_fn(CityDataView) -> Seq<char>,
    i: int,
) -> bool {
    &&& 0 <= i < cities.len()
    &&& forall|j: int|
        0 <= j < cities.len() && key(#[trigger] cities[j]) == key(cities[i])
            ==> cities[j].population <= cities[i].population
    &&& forall|j: int|
        0 <= j < i && key(#[trigger] cities[j]) == key(cities[i]) ==> cities[j].population
            < cities[i].population
}

/// The city at `i` is the first of its group.
pub open spec fn is_first_of_group(
    cities: Seq<CityDataView>,
    key: spec_fn(CityDataView) -> Seq<char>,
    i: int,
) -> bool {
    &&& 0 <= i < cities.len()
    &&& forall|j: int| 0 <= j < i ==> key(#[trigger] cities[j]) != key(cities[i])
}

/// `city` is among `cities` the largest of its group.
pub open spec fn is_largest_of_group(
    cities: Seq<CityDataView>,
    key: spec_fn(CityDataView) -> Seq<char>,
    city: CityDataView,
) -> bool {
    exists|i: int| #[trigger] is_champion(cities, key, i) && cities[i] == city
}

/// Some city of `chosen` is of the group `group`.
pub open spec fn has_group(
    key: spec_fn(CityDataView) -> Seq<char>,
    chosen: Seq<CityDataView>,
    group: Seq<char>,
) -> bool {
    exists|k: int| 0 <= k < chosen.len() && key(#[trigger] chosen[k]) == group
}

/// The group `earlier` first appears among `cities` before the group
/// `later` does.
pub open spec fn appears_before(
    cities: Seq<CityDataView>,
    key: spec_fn(CityDataView) -> Seq<char>,
    earlier: Seq<char>,
    later: Seq<char>,
) -> bool {
    exists|i1: int, i2: int|
        i1 < i2 && #[trigger] is_first_of_group(cities, key, i1) && #[trigger] is_first_of_group(
            cities,
            key,
            i2,
        ) && key(cities[i1]) == earlier && key(cities[i2]) == later
}

/// Every city of `chosen` is the largest of its group among `cities`.
pub open spec fn all_champions(
    cities: Seq<CityDataView>,
    key: spec_fn(CityDataView) -> Seq<char>,
    chosen: Seq<CityDataView>,
) -> bool {
    forall|k: int| 0 <= k < chosen.len() ==> is_largest_of_group(cities, key, #[trigger] chosen[k])
}

/// Every group among `cities` has a city in `chosen`.
pub open spec fn covers(
    cities: Seq<CityDataView>,
    key: spec_fn(CityDataView) -> Seq<char>,
    chosen: Seq<CityDataView>,
) -> bool {
    forall|i: int| 0 <= i < cities.len() ==> has_group(key, chosen, key(#[trigger] cities[i]))
}

/// The groups of `chosen` stand in the order in which they first appear
/// among `cities`. No group stands twice.
pub open spec fn in_order_of_appearance(
    cities: Seq<CityDataView>,
    key: spec_fn(CityDataView) -> Seq<char>,
    chosen: Seq<CityDataView>,
) -> bool {
    forall|k1: int, k2: int|
        0 <= k1 < k2 < chosen.len() ==> appears_before(
            cities,
            key,
            key(#[trigger] chosen[k1]),
            key(#[trigger] chosen[k2]),
        )
}

/// The groups of `chosen` stand in the order of texts. No group stands
/// twice.
pub open spec fn in_order_of_keys(
    key: spec_fn(CityDataView) -> Seq<char>,
    chosen: Seq<CityDataView>,
) -> bool {
    forall|k1: int, k2: int|
        0 <= k1 < k2 < chosen.len() ==> precedes(
            key(#[trigger] chosen[k1]),
            key(#[trigger] chosen[k2]),
        )
}

/// The row of `chosen` with the country name of `city`, if there is one.
fn find_country_name(chosen: &Vec<CityData>, city: &CityData) -> (found: Option<usize>)
    ensures
        match found {
            Some(k) => k < chosen@.len() && chosen@[k as int]@.country_name_eng()
                == city@.country_name_eng(),
            None => forall|k: int|
                0 <= k < chosen@.len() ==> (#[trigger] chosen@[k])@.country_name_eng()
                    != city@.country_name_eng(),
        },
{
    let name = city.country_name();
    let mut k: usize = 0;
    while k < chosen.len()
        invariant
            k <= chosen@.len(),
            name@ == city@.country_name_eng(),
            forall|j: int|
                0 <= j < k ==> (#[trigger] chosen@[j])@.country_name_eng()
                    != city@.country_name_eng(),
        decreases chosen.len() - k,
    {
        if *chosen[k].country_name() == *name {
            return Some(k);
        }
        k += 1;
    }
    None
}

/// What the loop of [`largest_city_for_each_country`] keeps: `chosen` holds
/// the largest city of each group met among the first `n` cities, in the
/// order in which the groups appeared. `champ[k]` and `first[k]` are the
/// places among the cities of the `k`-th chosen city and of the first city
/// of its group.
pub open spec fn tallied(
    cities: Seq<CityDataView>,
    key: spec_fn(CityDataView) -> Seq<char>,
    n: int,
    chosen: Seq<CityDataView>,
    champ: Seq<int>,
    first: Seq<int>,
) -> bool {
    &&& 0 <= n <= cities.len()
    &&& champ.len() == chosen.len()
    &&& first.len() == chosen.len()
    &&& forall|k: int|
        0 <= k < chosen.len() ==> is_champion(cities.take(n), key, #[trigger] champ[k])
            && chosen[k] == cities[champ[k]]
    &&& forall|k: int|
        0 <= k < chosen.len() ==> (#[trigger] first[k]) < n && is_first_of_group(
            cities,
            key,
            first[k],
        ) && key(cities[first[k]]) == key(chosen[k])
    &&& forall|k1: int, k2: int|
        0 <= k1 < k2 < chosen.len() ==> (#[trigger] first[k1]) < (#[trigger] first[k2])
    &&& forall|i: int| 0 <= i < n ==> has_group(key, chosen, key(#[trigger] cities[i]))
}

/// No two chosen cities are of one group.
proof fn lemma_tallied_distinct(
    cities: Seq<CityDataView>,
    key: spec_fn(CityDataView) -> Seq<char>,
    n: int,
    chosen: Seq<CityDataView>,
    champ: Seq<int>,
    first: Seq<int>,
    k1: int,
    k2: int,
)
    requires
        tallied(cities, key, n, chosen, champ, first),
        0 <= k1 < chosen.len(),
        0 <= k2 < chosen.len(),
        k1 != k2,
    ensures
        key(chosen[k1]) != key(chosen[k2]),
{
    if k1 < k2 {
        assert(first[k1] < first[k2]);
        assert(is_first_of_group(cities, key, first[k2]));
        assert(key(cities[first[k1]]) != key(cities[first[k2]]));
    } else {
        assert(first[k2] < first[k1]);
        assert(is_first_of_group(cities, key, first[k1]));
        assert(key(cities[first[k2]]) != key(cities[first[k1]]));
    }
}

/// The groups of the first `n + 1` cities all have a city in `after`, when
/// those of the first `n` have one in `chosen`, each city of `chosen` has
/// one of its group in `after`, at the place `place` gives, and the city at
/// `at` in `after` is of the group of the city at `n`.
proof fn lemma_cover_grows(
    cities: Seq<CityDataView>,
    key: spec_fn(CityDataView) -> Seq<char>,
    n: int,
    chosen: Seq<CityDataView>,
    after: Seq<CityDataView>,
    place: spec_fn(int) -> int,
    at: int,
)
    requires
        0 <= n < cities.len(),
        forall|i: int| 0 <= i < n ==> has_group(key, chosen, key(#[trigger] cities[i])),
        forall|k: int|
            0 <= k < chosen.len() ==> 0 <= place(k) < after.len() && key(after[place(k)]) == key(
                #[trigger] chosen[k],
            ),
        0 <= at < after.len(),
        key(after[at]) == key(cities[n]),
    ensures
        forall|i: int| 0 <= i < n + 1 ==> has_group(key, after, key(#[trigger] cities[i])),
{
    assert forall|i: int| 0 <= i < n + 1 implies has_group(
        key,
        after,
        key(#[trigger] cities[i]),
    ) by {
        if i < n {
            assert(has_group(key, chosen, key(cities[i])));
            let k0 = choose|k0: int|
                0 <= k0 < chosen.len() && key(#[trigger] chosen[k0]) == key(cities[i]);
            assert(key(after[place(k0)]) == key(cities[i]));
        } else {
            assert(key(after[at]) == key(cities[i]));
        }
    }
}

/// A city of another group than the one at `n` that was the largest of its
/// group among the first `n` cities is so among the first `n + 1`.
proof fn lemma_champion_stays(
    cities: Seq<CityDataView>,
    key: spec_fn(CityDataView) -> Seq<char>,
    n: int,
    c: int,
)
    requires
        0 <= n < cities.len(),
        is_champion(cities.take(n), key, c),
        key(cities[c]) != key(cities[n]) || cities[n].population <= cities[c].population,
    ensures
        is_champion(cities.take(n + 1), key, c),
{
    let seen = cities.take(n);
    let next = cities.take(n + 1);
    assert(seen[c] == next[c]);
    assert forall|j: int|
        0 <= j < next.len() && key(#[trigger] next[j]) == key(next[c]) implies next[j].population
        <= next[c].population by {
        if j < n {
            assert(seen[j] == next[j]);
        }
    }
    assert forall|j: int| 0 <= j < c && key(#[trigger] next[j]) == key(next[c]) implies next[j].population
        < next[c].population by {
        assert(seen[j] == next[j]);
    }
}

/// The city at `n` is the largest of its group among the first `n + 1`
/// cities when it has more people than the city at `held`, which was the
/// largest of that group among the first `n`, or when no city before it is
/// of its group.
proof fn lemma_champion_comes(
    cities: Seq<CityDataView>,
    key: spec_fn(CityDataView) -> Seq<char>,
    n: int,
    held: int,
)
    requires
        0 <= n < cities.len(),
        (is_champion(cities.take(n), key, held) && key(cities[held]) == key(cities[n])
            && cities[held].population < cities[n].population) || (forall|j: int|
            0 <= j < n ==> key(#[trigger] cities[j]) != key(cities[n])),
    ensures
        is_champion(cities.take(n + 1), key, n),
{
    let seen = cities.take(n);
    let next = cities.take(n + 1);
    assert forall|j: int|
        0 <= j < next.len() && key(#[trigger] next[j]) == key(next[n]) implies next[j].population
        <= next[n].population by {
        if j < n {
            assert(next[j] == cities[j]);
            assert(seen[j] == next[j]);
            assert(seen[held] == cities[held]);
        }
    }
    assert forall|j: int| 0 <= j < n && key(#[trigger] next[j]) == key(next[n]) implies next[j].population
        < next[n].population by {
        assert(next[j] == cities[j]);
        assert(seen[j] == next[j]);
        assert(seen[held] == cities[held]);
    }
}

/// The largest city of each country, the countries told apart by their
/// English names (by their codes where the dataset has no name), in the
/// order in which the countries first appear among `city_data`. Of several
/// cities of a country that are equally large, the first is taken.
pub fn largest_city_for_each_country(city_data: Vec<CityData>) -> (largest: Vec<CityData>)
    ensures
        all_champions(records(city_data@), by_country_name(), records(largest@)),
        in_order_of_appearance(records(city_data@), by_country_name(), records(largest@)),
        covers(records(city_data@), by_country_name(), records(largest@)),
{
    let ghost cities = records(city_data@);
    let ghost key = by_country_name();
    let ghost mut champ: Seq<int> = Seq::empty();
    let ghost mut first: Seq<int> = Seq::empty();
    let mut largest: Vec<CityData> = Vec::new();
    let mut n: usize = 0;
    while n < city_data.len()
        invariant
            cities == records(city_data@),
            key == by_country_name(),
            tallied(cities, key, n as int, records(largest@), champ, first),
        decreases city_data.len() - n,
    {
        let ghost chosen = records(largest@);
        let city = &city_data[n];
        assert(city@ == cities[n as int]);
        let found = find_country_name(&largest, city);
        let ghost hit: int = match found {
            Some(k) => k as int,
            None => -1,
        };
        proof {
            // The cities chosen for the other groups stay the largest of theirs.
            assert forall|k: int| 0 <= k < chosen.len() && k != hit implies is_champion(
                cities.take(n + 1),
                key,
                #[trigger] champ[k],
            ) by {
                assert(chosen[k] == cities[champ[k]]);
                if found is Some {
                    lemma_tallied_distinct(cities, key, n as int, chosen, champ, first, k, hit);
                }
                lemma_champion_stays(cities, key, n as int, champ[k]);
            }
        }
        match found {
            Some(k) => {
                let ghost held = champ[k as int];
                assert(chosen[k as int] == cities[held]);
                if city.population > largest[k].population {
                    largest.set(k, city.duplicate());
                    proof {
                        lemma_champion_comes(cities, key, n as int, held);
                        champ = champ.update(k as int, n as int);
                    }
                } else {
                    proof {
                        lemma_champion_stays(cities, key, n as int, held);
                    }
                }
                proof {
                    let after = records(largest@);
                    assert forall|k2: int| 0 <= k2 < after.len() implies key(#[trigger] after[k2])
                        == key(chosen[k2]) && after[k2] == cities[champ[k2]] by {
                        if k2 != k {
                            assert(after[k2] == chosen[k2]);
                        }
                    }
                    lemma_cover_grows(cities, key, n as int, chosen, after, |k: int| k, k as int);
                    assert forall|k2: int| 0 <= k2 < after.len() implies (#[trigger] first[k2]) < n
                        + 1 && is_first_of_group(cities, key, first[k2]) && key(cities[first[k2]])
                        == key(after[k2]) by {
                        assert(key(cities[first[k2]]) == key(chosen[k2]));
                    }
                    assert(tallied(cities, key, n + 1, after, champ, first));
                }
            },
            None => {
                proof {
                    assert forall|j: int| 0 <= j < n implies key(#[trigger] cities[j]) != key(
                        cities[n as int],
                    ) by {
                        assert(has_group(key, chosen, key(cities[j])));
                        let k0 = choose|k0: int|
                            0 <= k0 < chosen.len() && key(#[trigger] chosen[k0]) == key(cities[j]);
                        assert(key(chosen[k0]) != key(cities[n as int]));
                    }
                    assert(is_first_of_group(cities, key, n as int));
                    lemma_champion_comes(cities, key, n as int, 0);
                }
                largest.push(city.duplicate());
                proof {
                    champ = champ.push(n as int);
                    first = first.push(n as int);
                    let after = records(largest@);
                    assert forall|k2: int| 0 <= k2 < chosen.len() implies after[k2]
                        == chosen[k2] by {}
                    assert(after[chosen.len() as int] == cities[n as int]);
                    lemma_cover_grows(
                        cities,
                        key,
                        n as int,
                        chosen,
                        after,
                        |k: int| k,
                        chosen.len() as int,
                    );
                    assert(tallied(cities, key, n + 1, after, champ, first));
                }
            },
        }
        n += 1;
    }
    proof {
        let chosen = records(largest@);
        assert(cities.take(n as int) =~= cities);
        assert forall|k: int| 0 <= k < chosen.len() implies is_largest_of_group(
            cities,
            key,
            #[trigger] chosen[k],
        ) by {
            assert(is_champion(cities, key, champ[k]) && chosen[k] == cities[champ[k]]);
        }
        assert forall|k1: int, k2: int| 0 <= k1 < k2 < chosen.len() implies appears_before(
            cities,
            key,
            key(#[trigger] chosen[k1]),
            key(#[trigger] chosen[k2]),
        ) by {
            assert(first[k1] < first[k2]);
            assert(is_first_of_group(cities, key, first[k1]) && is_first_of_group(
                cities,
                key,
                first[k2],
            ));
        }
    }
    largest
}

/// What the loop of [`get_largest_city_for_each_country`] keeps: `chosen`
/// holds the largest city of each group met among the first `n` cities, in
/// the order of the groups. `champ[k]` is the place among the cities of the
/// `k`-th chosen city.
pub open spec fn ranked(
    cities: Seq<CityDataView>,
    key: spec_fn(CityDataView) -> Seq<char>,
    n: int,
    chosen: Seq<CityDataView>,
    champ: Seq<int>,
) -> bool {
    &&& 0 <= n <= cities.len()
    &&& champ.len() == chosen.len()
    &&& forall|k: int|
        0 <= k < chosen.len() ==> is_champion(cities.take(n), key, #[trigger] champ[k])
            && chosen[k] == cities[champ[k]]
    &&& in_order_of_keys(key, chosen)
    &&& forall|i: int| 0 <= i < n ==> has_group(key, chosen, key(#[trigger] cities[i]))
}

/// The largest city of each country, the countries told apart by their
/// codes, in the order of the codes as texts. Of several cities of a
/// country that are equally large, the first is taken.
pub fn get_largest_city_for_each_country(city_data: Vec<CityData>) -> (largest: Vec<CityData>)
    ensures
        all_champions(records(city_data@), by_country_code(), records(largest@)),
        in_order_of_keys(by_country_code(), records(largest@)),
        covers(records(city_data@), by_country_code(), records(largest@)),
{
    let ghost cities = records(city_data@);
    let ghost key = by_country_code();
    let ghost mut champ: Seq<int> = Seq::empty();
    let mut largest: Vec<CityData> = Vec::new();
    let mut n: usize = 0;
    while n < city_data.len()
        invariant
            cities == records(city_data@),
            key == by_country_code(),
            ranked(cities, key, n as int, records(largest@), champ),
        decreases city_data.len() - n,
    {
        let ghost chosen = records(largest@);
        let city = &city_data[n];
        let ghost code = key(cities[n as int]);
        assert(city@ == cities[n as int]);
        let mut p: usize = 0;
        while p < largest.len() && text_precedes(
            largest[p].country_code.as_str(),
            city.country_code.as_str(),
        )
            invariant
                p <= largest@.len(),
                chosen == records(largest@),
                key == by_country_code(),
                code == city@.country_code,
                forall|j: int| 0 <= j < p ==> precedes(key(#[trigger] chosen[j]), code),
            decreases largest.len() - p,
        {
            p += 1;
        }
        let same = p < largest.len() && largest[p].country_code == city.country_code;
        proof {
            // Every group before `p` comes before the code, and every group
            // from `p` on comes after it or is it.
            assert forall|j: int| 0 <= j < p implies key(#[trigger] chosen[j]) != code by {
                lemma_precedes_irreflexive(code);
            }
            if p < chosen.len() && !same {
                lemma_precedes_total(key(chosen[p as int]), code);
                assert forall|j: int| p <= j < chosen.len() implies precedes(
                    code,
                    key(#[trigger] chosen[j]),
                ) by {
                    if p < j {
                        lemma_precedes_transitive(code, key(chosen[p as int]), key(chosen[j]));
                    }
                }
            }
            assert forall|j: int| p < j < chosen.len() implies key(#[trigger] chosen[j]) != code by {
                if same {
                    assert(precedes(key(chosen[p as int]), key(chosen[j])));
                }
                lemma_precedes_irreflexive(code);
            }
            assert forall|k: int| 0 <= k < chosen.len() && !(same && k == p) implies is_champion(
                cities.take(n + 1),
                key,
                #[trigger] champ[k],
            ) by {
                assert(chosen[k] == cities[champ[k]]);
                lemma_champion_stays(cities, key, n as int, champ[k]);
            }
        }
        if same {
            let ghost held = champ[p as int];
            assert(chosen[p as int] == cities[held]);
            if city.population > largest[p].population {
                largest.set(p, city.duplicate());
                proof {
                    lemma_champion_comes(cities, key, n as int, held);
                    champ = champ.update(p as int, n as int);
                    let after = records(largest@);
                    assert forall|k: int| 0 <= k < after.len() implies key(#[trigger] after[k])
                        == key(chosen[k]) by {}
                    lemma_cover_grows(cities, key, n as int, chosen, after, |k: int| k, p as int);
                    assert forall|k1: int, k2: int| 0 <= k1 < k2 < after.len() implies precedes(
                        key(#[trigger] after[k1]),
                        key(#[trigger] after[k2]),
                    ) by {
                        assert(precedes(key(chosen[k1]), key(chosen[k2])));
                    }
                    assert(ranked(cities, key, n + 1, after, champ));
                }
            } else {
                proof {
                    lemma_champion_stays(cities, key, n as int, held);
                    lemma_cover_grows(cities, key, n as int, chosen, chosen, |k: int| k, p as int);
                    assert(ranked(cities, key, n + 1, chosen, champ));
                }
            }
        } else {
            proof {
                assert forall|j: int| 0 <= j < n implies key(#[trigger] cities[j]) != key(
                    cities[n as int],
                ) by {
                    assert(has_group(key, chosen, key(cities[j])));
                    let k0 = choose|k0: int|
                        0 <= k0 < chosen.len() && key(#[trigger] chosen[k0]) == key(cities[j]);
                    assert(key(chosen[k0]) != code);
                }
                lemma_champion_comes(cities, key, n as int, 0);
            }
            largest.insert(p, city.duplicate());
            proof {
                champ = champ.insert(p as int, n as int);
                let after = records(largest@);
                assert forall|k: int| 0 <= k < after.len() implies #[trigger] after[k] == (if k < p {
                    chosen[k]
                } else if k == p {
                    cities[n as int]
                } else {
                    chosen[k - 1]
                }) by {}
                assert forall|k: int| 0 <= k < after.len() implies is_champion(
                    cities.take(n + 1),
                    key,
                    #[trigger] champ[k],
                ) && after[k] == cities[champ[k]] by {
                    if k < p {
                        assert(champ[k] == champ.remove(p as int)[k]);
                    } else if k > p {
                        assert(champ[k] == champ.remove(p as int)[k - 1]);
                    }
                }
                lemma_cover_grows(
                    cities,
                    key,
                    n as int,
                    chosen,
                    after,
                    |k: int|
                        if k < p {
                            k
                        } else {
                            k + 1
                        },
                    p as int,
                );
                assert forall|k1: int, k2: int| 0 <= k1 < k2 < after.len() implies precedes(
                    key(#[trigger] after[k1]),
                    key(#[trigger] after[k2]),
                ) by {
                    if k2 < p {
                        assert(precedes(key(chosen[k1]), key(chosen[k2])));
                    } else if k2 == p {
                        assert(precedes(key(chosen[k1]), code));
                    } else if k1 < p {
                        assert(precedes(key(chosen[k1]), key(chosen[k2 - 1])));
                    } else if k1 == p {
                        assert(precedes(code, key(chosen[k2 - 1])));
                    } else {
                        assert(precedes(key(chosen[k1 - 1]), key(chosen[k2 - 1])));
                    }
                }
                assert(ranked(cities, key, n + 1, after, champ));
            }
        }
        n += 1;
    }
    proof {
        let chosen = records(largest@);
        assert(cities.take(n as int) =~= cities);
        assert forall|k: int| 0 <= k < chosen.len() implies is_largest_of_group(
            cities,
            key,
            #[trigger] chosen[k],
        ) by {
            assert(is_champion(cities, key, champ[k]) && chosen[k] == cities[champ[k]]);
        }
    }
    largest
}

} // verus!
