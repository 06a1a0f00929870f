use vstd::prelude::*;

verus! {

/// Number of address components; `Component` has exactly this many variants,
/// and a `Place` holds one optional value for each of them.
pub const NUM_COMPONENTS: usize = 21;

/// A `Component` is one named field of a postal address. The declaration
/// order is significant: every pass that walks "all fields" does so in this
/// order, so it must stay stable.
#[derive(Clone, Copy, Debug, PartialEq, Eq, Structural)]
pub enum Component {
    /// Leftover field; can hold the name of a POI or building, often displayed first.
    Attention,
    /// house_number of the address
    HouseNumber,
    /// house of the address
    House,
    /// road of the address
    Road,
    /// village of the address
    Village,
    /// suburb of the address
    Suburb,
    /// city of the address
    City,
    /// county of the address
    County,
    /// county_code of the address
    CountyCode,
    /// postcode of the address
    Postcode,
    /// state_district of the address
    StateDistrict,
    /// state of the address
    State,
    /// state_code of the address
    StateCode,
    /// region of the address
    Region,
    /// island of the address
    Island,
    /// neighbourhood of the address
    Neighbourhood,
    /// country of the address
    Country,
    /// country_code of the address
    CountryCode,
    /// continent of the address
    Continent,
    /// town of the address
    Town,
    /// city_district of the address
    CityDistrict,
}

impl Component {
    /// Position of this component in declaration order.
    pub open spec fn as_index(self) -> int {
        match self {
            Component::Attention => 0,
            Component::HouseNumber => 1,
            Component::House => 2,
            Component::Road => 3,
            Component::Village => 4,
            Component::Suburb => 5,
            Component::City => 6,
            Component::County => 7,
            Component::CountyCode => 8,
            Component::Postcode => 9,
            Component::StateDistrict => 10,
            Component::State => 11,
            Component::StateCode => 12,
            Component::Region => 13,
            Component::Island => 14,
            Component::Neighbourhood => 15,
            Component::Country => 16,
            Component::CountryCode => 17,
            Component::Continent => 18,
            Component::Town => 19,
            Component::CityDistrict => 20,
        }
    }

    /// Executable version of `as_index`.
    pub fn index(self) -> (i: usize)
        ensures
            i == self.as_index(),
            i < NUM_COMPONENTS,
    {
        match self {
            Component::Attention => 0,
            Component::HouseNumber => 1,
            Component::House => 2,
            Component::Road => 3,
            Component::Village => 4,
            Component::Suburb => 5,
            Component::City => 6,
            Component::County => 7,
            Component::CountyCode => 8,
            Component::Postcode => 9,
            Component::StateDistrict => 10,
            Component::State => 11,
            Component::StateCode => 12,
            Component::Region => 13,
            Component::Island => 14,
            Component::Neighbourhood => 15,
            Component::Country => 16,
            Component::CountryCode => 17,
            Component::Continent => 18,
            Component::Town => 19,
            Component::CityDistrict => 20,
        }
    }

    /// The component at a given declaration-order position.
    pub open spec fn from_index_spec(i: int) -> Component {
        if i == 0 { Component::Attention }
        else if i == 1 { Component::HouseNumber }
        else if i == 2 { Component::House }
        else if i == 3 { Component::Road }
        else if i == 4 { Component::Village }
        else if i == 5 { Component::Suburb }
        else if i == 6 { Component::City }
        else if i == 7 { Component::County }
        else if i == 8 { Component::CountyCode }
        else if i == 9 { Component::Postcode }
        else if i == 10 { Component::StateDistrict }
        else if i == 11 { Component::State }
        else if i == 12 { Component::StateCode }
        else if i == 13 { Component::Region }
        else if i == 14 { Component::Island }
        else if i == 15 { Component::Neighbourhood }
        else if i == 16 { Component::Country }
        else if i == 17 { Component::CountryCode }
        else if i == 18 { Component::Continent }
        else if i == 19 { Component::Town }
        else { Component::CityDistrict }
    }

    /// Executable version of `from_index_spec`.
    pub fn from_index(i: usize) -> (c: Component)
        requires
            i < NUM_COMPONENTS,
        ensures
            c == Component::from_index_spec(i as int),
            c.as_index() == i,
    {
        if i == 0 { Component::Attention }
        else if i == 1 { Component::HouseNumber }
        else if i == 2 { Component::House }
        else if i == 3 { Component::Road }
        else if i == 4 { Component::Village }
        else if i == 5 { Component::Suburb }
        else if i == 6 { Component::City }
        else if i == 7 { Component::County }
        else if i == 8 { Component::CountyCode }
        else if i == 9 { Component::Postcode }
        else if i == 10 { Component::StateDistrict }
        else if i == 11 { Component::State }
        else if i == 12 { Component::StateCode }
        else if i == 13 { Component::Region }
        else if i == 14 { Component::Island }
        else if i == 15 { Component::Neighbourhood }
        else if i == 16 { Component::Country }
        else if i == 17 { Component::CountryCode }
        else if i == 18 { Component::Continent }
        else if i == 19 { Component::Town }
        else { Component::CityDistrict }
    }
}

impl Component {
    /// The snake_case name of a component, used by templates and by the
    /// loose key-value builder.
    pub open spec fn name_of(self) -> Seq<char> {
        match self {
            Component::Attention => "attention"@,
            Component::HouseNumber => "house_number"@,
            Component::House => "house"@,
            Component::Road => "road"@,
            Component::Village => "village"@,
            Component::Suburb => "suburb"@,
            Component::City => "city"@,
            Component::County => "county"@,
            Component::CountyCode => "county_code"@,
            Component::Postcode => "postcode"@,
            Component::StateDistrict => "state_district"@,
            Component::State => "state"@,
            Component::StateCode => "state_code"@,
            Component::Region => "region"@,
            Component::Island => "island"@,
            Component::Neighbourhood => "neighbourhood"@,
            Component::Country => "country"@,
            Component::CountryCode => "country_code"@,
            Component::Continent => "continent"@,
            Component::Town => "town"@,
            Component::CityDistrict => "city_district"@,
        }
    }

    /// Executable `name_of`.
    pub fn name(self) -> (r: String)
        ensures
            r@ == self.name_of(),
    {
        match self {
            Component::Attention => String::from_str("attention"),
            Component::HouseNumber => String::from_str("house_number"),
            Component::House => String::from_str("house"),
            Component::Road => String::from_str("road"),
            Component::Village => String::from_str("village"),
            Component::Suburb => String::from_str("suburb"),
            Component::City => String::from_str("city"),
            Component::County => String::from_str("county"),
            Component::CountyCode => String::from_str("county_code"),
            Component::Postcode => String::from_str("postcode"),
            Component::StateDistrict => String::from_str("state_district"),
            Component::State => String::from_str("state"),
            Component::StateCode => String::from_str("state_code"),
            Component::Region => String::from_str("region"),
            Component::Island => String::from_str("island"),
            Component::Neighbourhood => String::from_str("neighbourhood"),
            Component::Country => String::from_str("country"),
            Component::CountryCode => String::from_str("country_code"),
            Component::Continent => String::from_str("continent"),
            Component::Town => String::from_str("town"),
            Component::CityDistrict => String::from_str("city_district"),
        }
    }

    /// The component a name denotes, if any.
    pub open spec fn from_name_spec(s: Seq<char>) -> Option<Component> {
        if s == "attention"@ { Option::Some(Component::Attention) }
        else if s == "house_number"@ { Option::Some(Component::HouseNumber) }
        else if s == "house"@ { Option::Some(Component::House) }
        else if s == "road"@ { Option::Some(Component::Road) }
        else if s == "village"@ { Option::Some(Component::Village) }
        else if s == "suburb"@ { Option::Some(Component::Suburb) }
        else if s == "city"@ { Option::Some(Component::City) }
        else if s == "county"@ { Option::Some(Component::County) }
        else if s == "county_code"@ { Option::Some(Component::CountyCode) }
        else if s == "postcode"@ { Option::Some(Component::Postcode) }
        else if s == "state_district"@ { Option::Some(Component::StateDistrict) }
        else if s == "state"@ { Option::Some(Component::State) }
        else if s == "state_code"@ { Option::Some(Component::StateCode) }
        else if s == "region"@ { Option::Some(Component::Region) }
        else if s == "island"@ { Option::Some(Component::Island) }
        else if s == "neighbourhood"@ { Option::Some(Component::Neighbourhood) }
        else if s == "country"@ { Option::Some(Component::Country) }
        else if s == "country_code"@ { Option::Some(Component::CountryCode) }
        else if s == "continent"@ { Option::Some(Component::Continent) }
        else if s == "town"@ { Option::Some(Component::Town) }
        else if s == "city_district"@ { Option::Some(Component::CityDistrict) }
        else { Option::None }
    }

    /// Executable `from_name_spec`.
    pub fn from_name(s: &str) -> (r: Option<Component>)
        ensures
            r == Component::from_name_spec(s@),
    {
        if crate::textutil::str_eq(s, "attention") { Option::Some(Component::Attention) }
        else if crate::textutil::str_eq(s, "house_number") { Option::Some(Component::HouseNumber) }
        else if crate::textutil::str_eq(s, "house") { Option::Some(Component::House) }
        else if crate::textutil::str_eq(s, "road") { Option::Some(Component::Road) }
        else if crate::textutil::str_eq(s, "village") { Option::Some(Component::Village) }
        else if crate::textutil::str_eq(s, "suburb") { Option::Some(Component::Suburb) }
        else if crate::textutil::str_eq(s, "city") { Option::Some(Component::City) }
        else if crate::textutil::str_eq(s, "county") { Option::Some(Component::County) }
        else if crate::textutil::str_eq(s, "county_code") { Option::Some(Component::CountyCode) }
        else if crate::textutil::str_eq(s, "postcode") { Option::Some(Component::Postcode) }
        else if crate::textutil::str_eq(s, "state_district") {
            Option::Some(Component::StateDistrict)
        }
        else if crate::textutil::str_eq(s, "state") { Option::Some(Component::State) }
        else if crate::textutil::str_eq(s, "state_code") { Option::Some(Component::StateCode) }
        else if crate::textutil::str_eq(s, "region") { Option::Some(Component::Region) }
        else if crate::textutil::str_eq(s, "island") { Option::Some(Component::Island) }
        else if crate::textutil::str_eq(s, "neighbourhood") {
            Option::Some(Component::Neighbourhood)
        }
        else if crate::textutil::str_eq(s, "country") { Option::Some(Component::Country) }
        else if crate::textutil::str_eq(s, "country_code") {
            Option::Some(Component::CountryCode)
        }
        else if crate::textutil::str_eq(s, "continent") { Option::Some(Component::Continent) }
        else if crate::textutil::str_eq(s, "town") { Option::Some(Component::Town) }
        else if crate::textutil::str_eq(s, "city_district") {
            Option::Some(Component::CityDistrict)
        }
        else { Option::None }
    }
}

/// The view of an optional field value: `None` means the field holds no
/// opinion, `Some` holds the character sequence of the value.
pub open spec fn opt_string_view(o: Option<String>) -> Option<Seq<char>> {
    match o {
        Option::Some(s) => Option::Some(s@),
        Option::None => Option::None,
    }
}

/// A `Place` is a structured representation of a postal address: a total
/// mapping from every `Component` to an optional string value. An absent
/// value (`None`) means the field was never set; an empty string is a
/// distinct, meaningful blank value.
pub struct Place {
    fields: Vec<Option<String>>,
}

impl View for Place {
    type V = Seq<Option<Seq<char>>>;

    closed spec fn view(&self) -> Seq<Option<Seq<char>>> {
        self.fields@.map_values(|o: Option<String>| opt_string_view(o))
    }
}

impl Place {
    #[verifier::type_invariant]
    spec fn wf(self) -> bool {
        self.fields@.len() == NUM_COMPONENTS
    }

    /// Every place maps all components to a value, so its view always has
    /// exactly one entry per component.
    pub fn view_len(&self) -> (n: usize)
        ensures
            n == NUM_COMPONENTS,
            self@.len() == NUM_COMPONENTS,
    {
        proof {
            use_type_invariant(self);
        }
        NUM_COMPONENTS
    }

    /// A place with every field absent.
    pub fn new() -> (r: Place)
        ensures
            r@ == Seq::new(NUM_COMPONENTS as nat, |i: int| Option::<Seq<char>>::None),
    {
        let mut fields: Vec<Option<String>> = Vec::new();
        let mut i: usize = 0;
        while i < NUM_COMPONENTS
            invariant
                i <= NUM_COMPONENTS,
                fields@.len() == i,
                forall|j: int| 0 <= j < i ==> fields@[j] is None,
            decreases NUM_COMPONENTS - i,
        {
            fields.push(Option::None);
            i += 1;
        }
        let r = Place { fields };
        proof {
            assert(r@ =~= Seq::new(NUM_COMPONENTS as nat, |i: int| Option::<Seq<char>>::None));
        }
        r
    }

    /// The current value of one field.
    pub fn get(&self, c: Component) -> (r: &Option<String>)
        ensures
            opt_string_view(*r) == self@[c.as_index()],
    {
        proof {
            use_type_invariant(self);
        }
        let i = c.index();
        &self.fields[i]
    }

    /// Overwrite one field.
    pub fn set(&mut self, c: Component, v: Option<String>)
        ensures
            final(self)@ == old(self)@.update(c.as_index(), opt_string_view(v)),
    {
        proof {
            use_type_invariant(&*self);
        }
        let i = c.index();
        self.fields[i] = v;
        proof {
            assert(final(self)@ =~= old(self)@.update(c.as_index(), opt_string_view(v)));
        }
    }
}

/// A place built by folding key-value pairs over an empty place: each pair
/// sets its component, later pairs overwriting earlier ones.
pub open spec fn place_from_pairs(pairs: Seq<(Component, String)>, i: int, a: Seq<Option<Seq<char>>>) -> Seq<
    Option<Seq<char>>,
>
    decreases pairs.len() - i,
{
    if i < 0 || i >= pairs.len() {
        a
    } else {
        place_from_pairs(
            pairs,
            i + 1,
            a.update(pairs[i].0.as_index(), Option::Some(pairs[i].1@)),
        )
    }
}

impl Place {
    /// Build a place from component-value pairs; a component named twice
    /// keeps its last value.
    pub fn from_pairs(pairs: &Vec<(Component, String)>) -> (r: Place)
        ensures
            r@ == place_from_pairs(
                pairs@,
                0,
                Seq::new(NUM_COMPONENTS as nat, |i: int| Option::<Seq<char>>::None),
            ),
    {
        let mut place = Place::new();
        let mut i: usize = 0;
        while i < pairs.len()
            invariant
                i <= pairs@.len(),
                place_from_pairs(
                    pairs@,
                    0,
                    Seq::new(NUM_COMPONENTS as nat, |k: int| Option::<Seq<char>>::None),
                ) == place_from_pairs(pairs@, i as int, place@),
            decreases pairs@.len() - i,
        {
            place.set(pairs[i].0, Option::Some(pairs[i].1.clone()));
            i += 1;
        }
        place
    }
}

impl Default for Place {
    /// Same as `Place::new`: a place with every field absent.
    fn default() -> (r: Place)
        ensures
            r@ == Seq::new(NUM_COMPONENTS as nat, |i: int| Option::<Seq<char>>::None),
    {
        Place::new()
    }
}

} // verus!
