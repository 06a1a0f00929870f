use address_formatter::cleanup_text;
use address_formatter::first_non_empty;
use address_formatter::Component;
use address_formatter::Configuration;
use address_formatter::CountryCode;
use address_formatter::CountryEntry;
use address_formatter::Error;
use address_formatter::FirstNonNullHelper;
use address_formatter::Formatter;
use address_formatter::Place;
use address_formatter::PlaceBuilder;

fn entry(code: &str, template: &str) -> CountryEntry {
    CountryEntry {
        country_code: code.to_string(),
        address_template: Some(template.to_string()),
        fallback_template: None,
        use_country: None,
        change_country: None,
        add_component: None,
        replace: vec![],
        postformat_replace: vec![],
    }
}

fn simple_formatter(entries: Vec<CountryEntry>) -> Formatter {
    Formatter::new(
        "{{{road}}} {{{house_number}}}\n{{{postcode}}} {{{city}}}\n{{{country}}}\n",
        "{{#first}}{{{city}}} || {{{state}}}{{/first}}\n{{{country}}}\n",
        &entries,
        &vec![],
        &vec![],
    )
    .unwrap()
}

#[test]
fn cleanup_collapses_newlines() {
    assert_eq!(cleanup_text("a\n\n\nb"), "a\nb\n");
}

#[test]
fn cleanup_strips_line_edges() {
    assert_eq!(cleanup_text(" - hello"), "hello\n");
    assert_eq!(cleanup_text(",x"), "x\n");
    assert_eq!(cleanup_text("x }, \ny"), "x\ny\n");
    assert_eq!(cleanup_text("x,\ny"), "x\ny\n");
    assert_eq!(cleanup_text("a\t\t b"), "a b\n");
}

#[test]
fn cleanup_comma_runs() {
    // One pass leaves a residue that a second pass collapses further: the
    // cascade is a fixed sequence of passes, not a fixpoint iteration.
    assert_eq!(cleanup_text("a,,,b"), "a, ,b\n");
    assert_eq!(cleanup_text("a, ,b"), "a, b\n");
}

#[test]
fn cleanup_is_stable_on_formatted_output() {
    let out = "17 Rue du Médecin-Colonel Calbairac\n31000 Toulouse\nFrance\n";
    assert_eq!(cleanup_text(out), out);
}

#[test]
fn cleanup_dedups_tokens_and_lines() {
    assert_eq!(cleanup_text("Berlin, Berlin\nBerlin"), "Berlin\n");
    assert_eq!(cleanup_text("a, b, b, a\nc\nc"), "a, b, a\nc\n");
}

#[test]
fn first_helper_picks_first_non_empty() {
    assert_eq!(first_non_empty(" || a || b"), "a");
    assert_eq!(first_non_empty("  ||  "), "");
    assert_eq!(first_non_empty("x"), "x");
    let helper = FirstNonNullHelper;
    assert_eq!(helper.call("x || y"), "x");
}

#[test]
fn country_code_normalization() {
    assert_eq!(CountryCode::from_str("UK").unwrap().as_str(), "GB");
    assert_eq!(CountryCode::from_str("uk").unwrap().as_str(), "UK");
    assert_eq!(CountryCode::from_str("fr").unwrap().as_str(), "FR");
    assert_eq!(CountryCode::from_str("FRA").unwrap_err(), Error::InvalidCountryCode);
    assert_eq!(CountryCode::from_str("F").unwrap_err(), Error::InvalidCountryCode);
}

#[test]
fn uk_uses_gb_rules() {
    // The "UK" alias resolves to GB before any rule lookup: the GB entry's
    // template and post-render replacements apply.
    let mut gb = entry("GB", "{{{road}}}\n{{{city}}} {{{postcode}}}\n{{{country}}}\n");
    gb.postformat_replace = vec![("Londn".to_string(), "London".to_string())];
    let formatter = simple_formatter(vec![gb]);
    let mut addr = Place::default();
    addr.set(Component::Road, Some("Baker Street".to_owned()));
    addr.set(Component::City, Some("Londn".to_owned()));
    addr.set(Component::Postcode, Some("NW1".to_owned()));
    addr.set(Component::Country, Some("United Kingdom".to_owned()));
    addr.set(Component::CountryCode, Some("UK".to_owned()));
    assert_eq!(
        formatter.format(addr).unwrap(),
        "Baker Street\nLondon NW1\nUnited Kingdom\n"
    );
}

#[test]
fn override_wins_over_address_field() {
    let fr = entry("FR", "{{{house_number}}} {{{road}}}\n{{{country}}}\n");
    let de = entry("DE", "{{{road}}} {{{house_number}}}\n{{{country}}}\n");
    let formatter = simple_formatter(vec![fr, de]);
    let mut addr = Place::default();
    addr.set(Component::Road, Some("Rue X".to_owned()));
    addr.set(Component::HouseNumber, Some("5".to_owned()));
    addr.set(Component::Country, Some("France".to_owned()));
    addr.set(Component::CountryCode, Some("DE".to_owned()));
    let conf = Configuration {
        country_code: Some("FR".to_string()),
        abbreviate: None,
    };
    assert_eq!(formatter.format_with_config(addr, conf).unwrap(), "5 Rue X\nFrance\n");
}

#[test]
fn fallback_template_used_without_detail() {
    let fr = entry("FR", "{{{house_number}}} {{{road}}}\n{{{country}}}\n");
    let formatter = simple_formatter(vec![fr]);
    let mut addr = Place::default();
    addr.set(Component::City, Some("Toulouse".to_owned()));
    addr.set(Component::Country, Some("France".to_owned()));
    addr.set(Component::CountryCode, Some("FR".to_owned()));
    // no road, no postcode: the global fallback template applies, and its
    // "first" block picks the city.
    assert_eq!(formatter.format(addr).unwrap(), "Toulouse\nFrance\n");
}

#[test]
fn country_fallback_template_used() {
    let mut gb = entry("GB", "{{{road}}}\n{{{country}}}\n");
    gb.fallback_template = Some("{{{city}}} ({{{country}}})\n".to_string());
    let formatter = simple_formatter(vec![gb]);
    let mut addr = Place::default();
    addr.set(Component::City, Some("London".to_owned()));
    addr.set(Component::Country, Some("United Kingdom".to_owned()));
    addr.set(Component::CountryCode, Some("GB".to_owned()));
    assert_eq!(formatter.format(addr).unwrap(), "London (United Kingdom)\n");
}

#[test]
fn sanitizer_cleans_postcodes_and_urls() {
    let us = entry("US", "{{{postcode}}}\n{{{road}}}\n");
    let formatter = simple_formatter(vec![us]);

    let mut addr = Place::default();
    addr.set(Component::CountryCode, Some("US".to_owned()));
    addr.set(Component::Postcode, Some("12345,67890".to_owned()));
    addr.set(Component::Road, Some("Main St".to_owned()));
    assert_eq!(formatter.format(addr).unwrap(), "12345\nMain St\n");

    let mut addr = Place::default();
    addr.set(Component::CountryCode, Some("US".to_owned()));
    addr.set(Component::Postcode, Some("123;456".to_owned()));
    addr.set(Component::Road, Some("Main St".to_owned()));
    assert_eq!(formatter.format(addr).unwrap(), "Main St\n");

    let mut addr = Place::default();
    addr.set(Component::CountryCode, Some("US".to_owned()));
    addr.set(Component::Postcode, Some("123456789012345678901".to_owned()));
    addr.set(Component::Road, Some("see https://example.com".to_owned()));
    assert_eq!(formatter.format(addr).unwrap(), "\n");
}

#[test]
fn netherlands_territories_resolve() {
    let nl = entry("NL", "NL {{{road}}}\n{{{country}}}\n");
    let cw = entry("CW", "CW {{{road}}}\n{{{country}}}\n");
    let formatter = simple_formatter(vec![nl, cw]);
    let mut addr = Place::default();
    addr.set(Component::Road, Some("Breedestraat".to_owned()));
    addr.set(Component::CountryCode, Some("NL".to_owned()));
    addr.set(Component::State, Some("Curaçao".to_owned()));
    assert_eq!(formatter.format(addr).unwrap(), "CW Breedestraat\nCuraçao\n");
}

#[test]
fn inheritance_copies_parent_template() {
    let fr = entry("FR", "{{{house_number}}} {{{road}}}\n{{{postcode}}} {{{city}}}\n{{{country}}}\n");
    let mc = CountryEntry {
        country_code: "MC".to_string(),
        address_template: None,
        fallback_template: None,
        use_country: Some("FR".to_string()),
        change_country: Some("Monaco".to_string()),
        add_component: None,
        replace: vec![],
        postformat_replace: vec![],
    };
    let formatter = simple_formatter(vec![fr, mc]);
    let mut addr = Place::default();
    addr.set(Component::Road, Some("Rue Grimaldi".to_owned()));
    addr.set(Component::HouseNumber, Some("7".to_owned()));
    addr.set(Component::Postcode, Some("98000".to_owned()));
    addr.set(Component::City, Some("Monaco".to_owned()));
    addr.set(Component::CountryCode, Some("MC".to_owned()));
    assert_eq!(
        formatter.format(addr).unwrap(),
        "7 Rue Grimaldi\n98000 Monaco\nMonaco\n"
    );
}

#[test]
fn inheritance_injects_state() {
    let us = entry("US", "{{{road}}}, {{{state}}}\n{{{country}}}\n");
    let territory = CountryEntry {
        country_code: "GU".to_string(),
        address_template: None,
        fallback_template: None,
        use_country: Some("US".to_string()),
        change_country: None,
        add_component: Some("state=Guam".to_string()),
        replace: vec![],
        postformat_replace: vec![],
    };
    let formatter = simple_formatter(vec![us, territory]);
    let mut addr = Place::default();
    addr.set(Component::Road, Some("Marine Corps Dr".to_owned()));
    addr.set(Component::Country, Some("United States".to_owned()));
    addr.set(Component::CountryCode, Some("GU".to_owned()));
    assert_eq!(
        formatter.format(addr).unwrap(),
        "Marine Corps Dr, Guam\nUnited States\n"
    );
}

#[test]
fn state_code_is_derived() {
    let us = entry("US", "{{{city}}}, {{{state_code}}}\n{{{country}}}\n");
    let formatter = Formatter::new(
        "{{{road}}}\n",
        "{{{city}}}\n",
        &vec![us],
        &vec![(
            "US".to_string(),
            "California".to_string(),
            "CA".to_string(),
        )],
        &vec![],
    )
    .unwrap();
    let mut addr = Place::default();
    addr.set(Component::City, Some("Mountain View".to_owned()));
    addr.set(Component::State, Some("California".to_owned()));
    addr.set(Component::Postcode, Some("94043".to_owned()));
    addr.set(Component::Country, Some("United States".to_owned()));
    addr.set(Component::CountryCode, Some("US".to_owned()));
    assert_eq!(
        formatter.format(addr).unwrap(),
        "Mountain View, CA\nUnited States\n"
    );
}

#[test]
fn county_code_overwrites_county() {
    let us = entry("US", "{{{county}}}\n{{{country}}}\n");
    let formatter = Formatter::new(
        "{{{road}}}\n",
        "{{{city}}}\n",
        &vec![us],
        &vec![],
        &vec![("US".to_string(), "Alameda".to_string(), "AL".to_string())],
    )
    .unwrap();
    let mut addr = Place::default();
    addr.set(Component::County, Some("Alameda".to_owned()));
    addr.set(Component::Postcode, Some("94501".to_owned()));
    addr.set(Component::Country, Some("United States".to_owned()));
    addr.set(Component::CountryCode, Some("US".to_owned()));
    assert_eq!(formatter.format(addr).unwrap(), "AL\nUnited States\n");
}

#[test]
fn builder_swaps_numeric_country() {
    let builder = PlaceBuilder::new(vec![]);
    let values = vec![
        ("country".to_string(), "123".to_string()),
        ("state".to_string(), "Germany".to_string()),
        ("road".to_string(), "Unter den Linden".to_string()),
    ];
    let place = builder.build_place(&values);
    assert_eq!(place.get(Component::Country).clone(), Some("Germany".to_string()));
    assert_eq!(place.get(Component::State).clone(), None);
    assert_eq!(place.get(Component::Road).clone(), Some("Unter den Linden".to_string()));
}

#[test]
fn builder_collects_leftovers_in_order() {
    let builder = PlaceBuilder::new(vec![]);
    let values = vec![
        ("first_unknown".to_string(), "one".to_string()),
        ("road".to_string(), "High St".to_string()),
        ("second_unknown".to_string(), "two".to_string()),
    ];
    let place = builder.build_place(&values);
    assert_eq!(place.get(Component::Attention).clone(), Some("one, two".to_string()));
    assert_eq!(place.get(Component::Road).clone(), Some("High St".to_string()));
}

#[test]
fn format_is_deterministic() {
    let formatter = simple_formatter(vec![]);
    let mut a1 = Place::default();
    a1.set(Component::Road, Some("Main St".to_owned()));
    a1.set(Component::City, Some("Springfield".to_owned()));
    let mut a2 = Place::default();
    a2.set(Component::Road, Some("Main St".to_owned()));
    a2.set(Component::City, Some("Springfield".to_owned()));
    assert_eq!(formatter.format(a1).unwrap(), formatter.format(a2).unwrap());
}

#[test]
fn build_rejects_invalid_country_code() {
    let r = Formatter::new("{{{road}}}\n", "{{{city}}}\n", &vec![entry("FRA", "x")], &vec![], &vec![]);
    assert_eq!(r.unwrap_err(), Error::InvalidCountryCode);
}

#[test]
fn build_rejects_invalid_template() {
    let r = Formatter::new("{{#if}}", "{{{city}}}\n", &vec![], &vec![], &vec![]);
    assert_eq!(r.unwrap_err(), Error::InvalidTemplate);
    let mut e = entry("FR", "ok");
    e.address_template = None;
    let r = Formatter::new("{{{road}}}\n", "{{{city}}}\n", &vec![e], &vec![], &vec![]);
    assert_eq!(r.unwrap_err(), Error::InvalidTemplate);
}

#[test]
fn build_rejects_invalid_regex() {
    let mut e = entry("FR", "{{{road}}}\n");
    e.replace = vec![("(".to_string(), "x".to_string())];
    let r = Formatter::new("{{{road}}}\n", "{{{city}}}\n", &vec![e], &vec![], &vec![]);
    assert_eq!(r.unwrap_err(), Error::InvalidRegex);
}

#[test]
fn build_rejects_scoped_postformat() {
    let mut e = entry("FR", "{{{road}}}\n");
    e.postformat_replace = vec![("state=x".to_string(), "y".to_string())];
    let r = Formatter::new("{{{road}}}\n", "{{{city}}}\n", &vec![e], &vec![], &vec![]);
    assert_eq!(r.unwrap_err(), Error::ScopedPostformatRule);
}

#[test]
fn build_rejects_unknown_replace_component() {
    let mut e = entry("FR", "{{{road}}}\n");
    e.replace = vec![("nonsuch=abc".to_string(), "x".to_string())];
    let r = Formatter::new("{{{road}}}\n", "{{{city}}}\n", &vec![e], &vec![], &vec![]);
    assert_eq!(r.unwrap_err(), Error::InvalidReplaceRule);
}

#[test]
fn build_rejects_bad_injection() {
    let mut e = entry("MC", "x");
    e.address_template = None;
    e.use_country = Some("FR".to_string());
    e.add_component = Some("city=Monaco".to_string());
    let fr = entry("FR", "{{{road}}}\n");
    let r = Formatter::new("{{{road}}}\n", "{{{city}}}\n", &vec![fr, e], &vec![], &vec![]);
    assert_eq!(r.unwrap_err(), Error::InvalidAddComponent);
}

#[test]
fn build_rejects_deep_inheritance() {
    let mut a = entry("AA", "x");
    a.address_template = None;
    a.use_country = Some("BB".to_string());
    let mut b = entry("BB", "x");
    b.address_template = None;
    b.use_country = Some("CC".to_string());
    let c = entry("CC", "{{{road}}}\n");
    let r = Formatter::new("{{{road}}}\n", "{{{city}}}\n", &vec![a, b, c], &vec![], &vec![]);
    assert_eq!(r.unwrap_err(), Error::UnresolvedParentCountry);
}

#[test]
fn build_rejects_duplicate_country() {
    let r = Formatter::new(
        "{{{road}}}\n",
        "{{{city}}}\n",
        &vec![entry("FR", "a"), entry("FR", "b")],
        &vec![],
        &vec![],
    );
    assert_eq!(r.unwrap_err(), Error::DuplicateCountry);
}

#[test]
fn render_failure_is_reported() {
    // The template parses as a whole, but cutting it at the "first" block
    // leaves an unclosed conditional, which the engine refuses at render
    // time: the one error `format` can return.
    let formatter = Formatter::new(
        "{{#if a}}{{#first}}x{{/first}}{{/if}}",
        "{{{city}}}\n",
        &vec![],
        &vec![],
        &vec![],
    )
    .unwrap();
    let addr = Place::default();
    assert_eq!(formatter.format(addr).unwrap_err(), Error::RenderFailed);
}

#[test]
fn replace_rule_first_match_only() {
    // A pre-render replace rule substitutes the first match in a field and
    // leaves later matches alone.
    let mut fr = entry("FR", "{{{road}}}\n{{{country}}}\n");
    fr.replace = vec![("Str".to_string(), "St".to_string())];
    let formatter = simple_formatter(vec![fr]);
    let mut addr = Place::default();
    addr.set(Component::Road, Some("Strasse Str".to_owned()));
    addr.set(Component::Country, Some("France".to_owned()));
    addr.set(Component::CountryCode, Some("FR".to_owned()));
    assert_eq!(formatter.format(addr).unwrap(), "Stasse Str\nFrance\n");
}

#[test]
fn postformat_replaces_all_matches() {
    // A post-render replacement substitutes every match in the whole text.
    let mut fr = entry("FR", "{{{road}}}\n{{{city}}}\n");
    fr.postformat_replace = vec![("street".to_string(), "st".to_string())];
    let formatter = simple_formatter(vec![fr]);
    let mut addr = Place::default();
    addr.set(Component::Road, Some("Long street".to_owned()));
    addr.set(Component::City, Some("Other street".to_owned()));
    addr.set(Component::Postcode, Some("75001".to_owned()));
    addr.set(Component::CountryCode, Some("FR".to_owned()));
    assert_eq!(formatter.format(addr).unwrap(), "Long st\nOther st\n");
}

#[test]
fn blank_value_is_kept_distinct() {
    // An empty-string value is a meaningful blank: it renders as nothing,
    // while the component still counts as set.
    let fr = entry("FR", "{{{road}}} {{{house_number}}}\n{{{country}}}\n");
    let formatter = simple_formatter(vec![fr]);
    let mut addr = Place::default();
    addr.set(Component::Road, Some("Rue X".to_owned()));
    addr.set(Component::HouseNumber, Some("".to_owned()));
    addr.set(Component::Country, Some("France".to_owned()));
    addr.set(Component::CountryCode, Some("FR".to_owned()));
    assert_eq!(formatter.format(addr).unwrap(), "Rue X\nFrance\n");
}

#[test]
fn abbreviate_flag_is_accepted_without_effect() {
    let fr = entry("FR", "{{{road}}}\n{{{country}}}\n");
    let formatter = simple_formatter(vec![fr]);
    let mut addr = Place::default();
    addr.set(Component::Road, Some("Avenue de la République".to_owned()));
    addr.set(Component::Country, Some("France".to_owned()));
    addr.set(Component::CountryCode, Some("FR".to_owned()));
    let conf = Configuration {
        country_code: None,
        abbreviate: Some(true),
    };
    assert_eq!(
        formatter.format_with_config(addr, conf).unwrap(),
        "Avenue de la République\nFrance\n"
    );
}

#[test]
fn sint_maarten_matches_case_insensitively() {
    let nl = entry("NL", "NL {{{road}}}\n{{{country}}}\n");
    let sx = entry("SX", "SX {{{road}}}\n{{{country}}}\n");
    let formatter = simple_formatter(vec![nl, sx]);
    let mut addr = Place::default();
    addr.set(Component::Road, Some("Front Street".to_owned()));
    addr.set(Component::CountryCode, Some("NL".to_owned()));
    addr.set(Component::State, Some("SINT MAARTEN".to_owned()));
    assert_eq!(formatter.format(addr).unwrap(), "SX Front Street\nSint Maarten\n");
}

#[test]
fn alias_consumed_even_when_component_set() {
    // An unknown key matching an alias is consumed either way; it only sets
    // the component when that component is still unset, and it never
    // reaches the attention field.
    let builder = PlaceBuilder::new(vec![(Component::House, vec!["building".to_string()])]);
    let values = vec![
        ("house".to_string(), "Main Hall".to_string()),
        ("building".to_string(), "Annex".to_string()),
    ];
    let place = builder.build_place(&values);
    assert_eq!(place.get(Component::House).clone(), Some("Main Hall".to_string()));
    assert_eq!(place.get(Component::Attention).clone(), Some("".to_string()));
}
