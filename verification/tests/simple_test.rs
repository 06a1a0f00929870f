use address_formatter::Component;
use address_formatter::CountryEntry;
use address_formatter::Formatter;
use address_formatter::Place;
use address_formatter::PlaceBuilder;

// The corpus used by these tests mirrors the worldwide rule set for the
// countries they touch: a generic default template, a reduced-detail
// fallback, and a French entry whose house number stands before the road.

fn default_template() -> String {
    "{{{attention}}}\n{{{house}}}\n{{{road}}} {{{house_number}}}\n{{{postcode}}} {{{city}}}\n{{{country}}}\n".to_string()
}

fn fallback_template() -> String {
    "{{#first}}{{{city}}} || {{{state}}}{{/first}}\n{{{country}}}\n".to_string()
}

fn fr_entry() -> CountryEntry {
    CountryEntry {
        country_code: "FR".to_string(),
        address_template: Some(
            "{{{attention}}}\n{{{house}}}\n{{{house_number}}} {{{road}}}\n{{{postcode}}} {{{city}}}\n{{{country}}}\n".to_string(),
        ),
        fallback_template: None,
        use_country: None,
        change_country: None,
        add_component: None,
        replace: vec![
            (
                "country=, Îles du Vent \\(eaux territoriales\\)".to_string(),
                "".to_string(),
            ),
        ],
        postformat_replace: vec![],
    }
}

fn formatter() -> Formatter {
    Formatter::new(
        default_template().as_str(),
        fallback_template().as_str(),
        &vec![fr_entry()],
        &vec![],
        &vec![],
    )
    .unwrap()
}

fn builder() -> PlaceBuilder {
    PlaceBuilder::new(vec![(Component::House, vec!["building".to_string()])])
}

#[test]
pub fn basic_test() {
    let formatter = formatter();

    let mut addr = Place::default();
    addr.set(Component::City, Some("Toulouse".to_owned()));
    addr.set(Component::Country, Some("France".to_owned()));
    addr.set(Component::CountryCode, Some("FR".to_owned()));
    addr.set(Component::County, Some("Toulouse".to_owned()));
    addr.set(Component::HouseNumber, Some("17".to_owned()));
    addr.set(Component::Neighbourhood, Some("Lafourguette".to_owned()));
    addr.set(Component::Postcode, Some("31000".to_owned()));
    addr.set(
        Component::Road,
        Some("Rue du Médecin-Colonel Calbairac".to_owned()),
    );
    addr.set(Component::State, Some("Midi-Pyrénées".to_owned()));
    addr.set(Component::Suburb, Some("Toulouse Ouest".to_owned()));

    assert_eq!(
        formatter.format(addr).unwrap(),
        "17 Rue du Médecin-Colonel Calbairac\n31000 Toulouse\nFrance\n".to_owned()
    )
}

#[test]
pub fn easier_init_test() {
    let formatter = formatter();

    let data = vec![
        (Component::City, "Toulouse".to_owned()),
        (Component::Country, "France".to_owned()),
        (Component::CountryCode, "FR".to_owned()),
        (Component::County, "Toulouse".to_owned()),
        (Component::HouseNumber, "17".to_owned()),
        (Component::Neighbourhood, "Lafourguette".to_owned()),
        (Component::Postcode, "31000".to_owned()),
        (Component::Road, "Rue du Médecin-Colonel Calbairac".to_owned()),
        (Component::State, "Midi-Pyrénées".to_owned()),
        (Component::Suburb, "Toulouse Ouest".to_owned()),
    ];
    let addr = Place::from_pairs(&data);

    assert_eq!(
        formatter.format(addr).unwrap(),
        "17 Rue du Médecin-Colonel Calbairac\n31000 Toulouse\nFrance\n".to_owned()
    )
}

#[test]
pub fn empty_address() {
    let formatter = formatter();
    let addr = Place::default();
    assert_eq!(formatter.format(addr).unwrap(), "\n".to_owned())
}

#[test]
pub fn address_builder() {
    let formatter = formatter();
    let addr_builder = builder();
    let data = [
        ("building", "Mairie (bureaux administratifs)"),
        ("city", "Papeete"),
        (
            "country",
            "Polynésie française, Îles du Vent (eaux territoriales)",
        ),
        ("country_code", "fr"),
        ("county", "Îles du Vent"),
        ("postcode", "98714"),
        ("road", "Rue des Remparts"),
        ("state", "French Polynesia"),
    ];

    let values: Vec<(String, String)> = data
        .iter()
        .map(|(k, v)| (k.to_string(), v.to_string()))
        .collect();
    let addr = addr_builder.build_place(&values);

    assert_eq!(
        formatter.format(addr).unwrap(),
        "Mairie (bureaux administratifs)\nRue des Remparts\n98714 Papeete\nPolynésie française\n"
            .to_owned()
    )
}

#[test]
fn use_of_singleton() {
    let formatter = formatter();
    let mut addr = Place::default();
    addr.set(Component::City, Some("Toulouse".to_owned()));
    addr.set(Component::Country, Some("France".to_owned()));
    addr.set(Component::CountryCode, Some("FR".to_owned()));
    addr.set(
        Component::Road,
        Some("Rue du Médecin-Colonel Calbairac".to_owned()),
    );
    assert_eq!(
        formatter.format(addr).unwrap(),
        "Rue du Médecin-Colonel Calbairac\nToulouse\nFrance\n".to_owned()
    )
}
