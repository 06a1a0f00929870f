use crate::country::normalize_cc;
use crate::country::lower_char;
use crate::country::CountryCode;
use crate::error::Error;
use crate::place::opt_string_view;
use crate::place::Component;
use crate::place::Place;
use crate::place::NUM_COMPONENTS;
use crate::rules::rules_wf;
use crate::rules::NewComponent;
use crate::rules::Replacement;
use crate::rules::ReplaceRule;
use crate::rules::Rules;
use crate::rules::Template;
use crate::textutil::chars_to_string;
use crate::textutil::first_sub;
use crate::textutil::str_eq;
use crate::textutil::str_to_chars;
use vstd::prelude::*;

verus! {

/// The field view of a place: one optional character sequence per component.
pub type PlaceView = Seq<Option<Seq<char>>>;

/// This configuration changes the formatter's behaviour for one call.
pub struct Configuration {
    /// Force the country: the place's own country_code field is then not
    /// consulted.
    pub country_code: Option<String>,
    /// Accepted for compatibility; no transformation is wired to it.
    pub abbreviate: Option<bool>,
}

impl Configuration {
    /// The country-code override, as a view.
    pub open spec fn cc_view(&self) -> Option<Seq<char>> {
        opt_string_view(self.country_code)
    }
}

impl Default for Configuration {
    /// No override, no abbreviation.
    fn default() -> (r: Configuration)
        ensures
            r.country_code is None,
            r.abbreviate is None,
    {
        Configuration { country_code: Option::None, abbreviate: Option::None }
    }
}

/// First-match lookup of a template by country code.
pub open spec fn tpl_lookup(s: Seq<(CountryCode, Template)>, key: Seq<char>) -> Option<Template>
    decreases s.len(),
{
    if s.len() == 0 {
        Option::None
    } else if s[0].0@ == key {
        Option::Some(s[0].1)
    } else {
        tpl_lookup(s.skip(1), key)
    }
}

/// First-match lookup of a rule set by country code.
pub open spec fn rules_lookup(s: Seq<(CountryCode, Rules)>, key: Seq<char>) -> Option<Rules>
    decreases s.len(),
{
    if s.len() == 0 {
        Option::None
    } else if s[0].0@ == key {
        Option::Some(s[0].1)
    } else {
        rules_lookup(s.skip(1), key)
    }
}

/// First-match lookup in an admin-area code table keyed by country code and
/// localized area name.
pub open spec fn code_lookup(
    s: Seq<(CountryCode, String, String)>,
    key: Seq<char>,
    name: Seq<char>,
) -> Option<Seq<char>>
    decreases s.len(),
{
    if s.len() == 0 {
        Option::None
    } else if s[0].0@ == key && s[0].1@ == name {
        Option::Some(s[0].2@)
    } else {
        code_lookup(s.skip(1), key, name)
    }
}

/// Executable `tpl_lookup` on the suffix of `s` from `i` on.
fn tpl_find<'a>(s: &'a Vec<(CountryCode, Template)>, i: usize, key: &str) -> (r: Option<
    &'a Template,
>)
    requires
        i <= s@.len(),
    ensures
        match r {
            Option::Some(t) => tpl_lookup(s@.skip(i as int), key@) == Option::Some(*t),
            Option::None => tpl_lookup(s@.skip(i as int), key@) is None,
        },
    decreases s@.len() - i,
{
    if i == s.len() {
        Option::None
    } else if str_eq(s[i].0.as_str(), key) {
        proof {
            assert(s@.skip(i as int)[0] == s@[i as int]);
        }
        Option::Some(&s[i].1)
    } else {
        let r = tpl_find(s, i + 1, key);
        proof {
            assert(s@.skip(i as int)[0] == s@[i as int]);
            assert(s@.skip(i as int).skip(1) =~= s@.skip(i as int + 1));
        }
        r
    }
}

/// Executable `rules_lookup` on the suffix of `s` from `i` on.
fn rules_find<'a>(s: &'a Vec<(CountryCode, Rules)>, i: usize, key: &str) -> (r: Option<&'a Rules>)
    requires
        i <= s@.len(),
    ensures
        match r {
            Option::Some(t) => rules_lookup(s@.skip(i as int), key@) == Option::Some(*t),
            Option::None => rules_lookup(s@.skip(i as int), key@) is None,
        },
    decreases s@.len() - i,
{
    if i == s.len() {
        Option::None
    } else if str_eq(s[i].0.as_str(), key) {
        proof {
            assert(s@.skip(i as int)[0] == s@[i as int]);
        }
        Option::Some(&s[i].1)
    } else {
        let r = rules_find(s, i + 1, key);
        proof {
            assert(s@.skip(i as int)[0] == s@[i as int]);
            assert(s@.skip(i as int).skip(1) =~= s@.skip(i as int + 1));
        }
        r
    }
}

/// Executable `code_lookup` on the suffix of `s` from `i` on.
fn code_find(s: &Vec<(CountryCode, String, String)>, i: usize, key: &str, name: &str) -> (r:
    Option<String>)
    requires
        i <= s@.len(),
    ensures
        match r {
            Option::Some(t) => code_lookup(s@.skip(i as int), key@, name@) == Option::Some(t@),
            Option::None => code_lookup(s@.skip(i as int), key@, name@) is None,
        },
    decreases s@.len() - i,
{
    if i == s.len() {
        Option::None
    } else if str_eq(s[i].0.as_str(), key) && str_eq(s[i].1.as_str(), name) {
        proof {
            assert(s@.skip(i as int)[0] == s@[i as int]);
        }
        Option::Some(s[i].2.clone())
    } else {
        let r = code_find(s, i + 1, key, name);
        proof {
            assert(s@.skip(i as int)[0] == s@[i as int]);
            assert(s@.skip(i as int).skip(1) =~= s@.skip(i as int + 1));
        }
        r
    }
}

/// A decimal digit.
pub open spec fn is_digit(c: char) -> bool {
    '0' <= c && c <= '9'
}

/// The text holds a digit, a semicolon and a digit in a row somewhere: the
/// mark of a postcode range, not a postcode.
pub open spec fn has_postcode_range(s: Seq<char>) -> bool {
    exists|i: int|
        0 <= i && i + 2 < s.len() && is_digit(s[i]) && #[trigger] s[i + 1] == ';' && is_digit(
            s[i + 2],
        )
}

/// The text starts with five digits, a comma and five more digits: a pair of
/// postcodes, of which the first is kept.
pub open spec fn has_postcode_pair(s: Seq<char>) -> bool {
    s.len() >= 11 && (forall|i: int| 0 <= i < 5 ==> is_digit(#[trigger] s[i])) && s[5] == ','
        && (forall|i: int| 6 <= i < 11 ==> is_digit(#[trigger] s[i]))
}

/// The text holds a URL.
pub open spec fn has_url(s: Seq<char>) -> bool {
    first_sub(s, "http://"@) + "http://"@.len() <= s.len() || first_sub(s, "https://"@)
        + "https://"@.len() <= s.len()
}

/// What the postcode sanitizer leaves of a postcode value.
pub open spec fn sanitize_postcode(pc: Seq<char>) -> Option<Seq<char>> {
    if pc.len() > 20 || has_postcode_range(pc) {
        Option::None
    } else if has_postcode_pair(pc) {
        Option::Some(pc.take(5))
    } else {
        Option::Some(pc)
    }
}

/// The data-hygiene pass over a whole place: the postcode is dropped or
/// shortened as `sanitize_postcode` says, and any field holding a URL is
/// cleared.
pub open spec fn sanitize_spec(a: PlaceView) -> PlaceView {
    Seq::new(
        a.len(),
        |i: int|
            {
                let v = if i == Component::Postcode.as_index() {
                    match a[i] {
                        Option::Some(pc) => sanitize_postcode(pc),
                        Option::None => Option::None,
                    }
                } else {
                    a[i]
                };
                match v {
                    Option::Some(t) => if has_url(t) {
                        Option::None
                    } else {
                        Option::Some(t)
                    },
                    Option::None => Option::None,
                }
            },
    )
}

fn is_digit_exec(c: char) -> (r: bool)
    ensures
        r == is_digit(c),
{
    '0' <= c && c <= '9'
}

/// Executable `has_postcode_range`.
fn has_postcode_range_exec(v: &Vec<char>) -> (r: bool)
    ensures
        r == has_postcode_range(v@),
{
    if v.len() < 3 {
        return false;
    }
    let mut i: usize = 0;
    while i < v.len() - 2
        invariant
            v@.len() >= 3,
            i <= v@.len() - 2,
            forall|j: int|
                0 <= j < i ==> !(is_digit(v@[j]) && #[trigger] v@[j + 1] == ';' && is_digit(
                    v@[j + 2],
                )),
        decreases v@.len() - i,
    {
        if is_digit_exec(v[i]) && v[i + 1] == ';' && is_digit_exec(v[i + 2]) {
            return true;
        }
        i += 1;
    }
    false
}

/// Executable `has_postcode_pair`.
fn has_postcode_pair_exec(v: &Vec<char>) -> (r: bool)
    ensures
        r == has_postcode_pair(v@),
{
    if v.len() < 11 {
        return false;
    }
    if v[5] != ',' {
        return false;
    }
    let mut i: usize = 0;
    while i < 5
        invariant
            v@.len() >= 11,
            i <= 5,
            forall|j: int| 0 <= j < i ==> is_digit(#[trigger] v@[j]),
        decreases 5 - i,
    {
        if !is_digit_exec(v[i]) {
            return false;
        }
        i += 1;
    }
    let mut k: usize = 6;
    while k < 11
        invariant
            v@.len() >= 11,
            6 <= k <= 11,
            forall|j: int| 0 <= j < 5 ==> is_digit(#[trigger] v@[j]),
            forall|j: int| 6 <= j < k ==> is_digit(#[trigger] v@[j]),
        decreases 11 - k,
    {
        if !is_digit_exec(v[k]) {
            return false;
        }
        k += 1;
    }
    true
}

/// Executable `has_url`.
fn has_url_exec(v: &Vec<char>) -> (r: bool)
    ensures
        r == has_url(v@),
{
    let mut m1: Vec<char> = Vec::new();
    m1.push('h');
    m1.push('t');
    m1.push('t');
    m1.push('p');
    m1.push(':');
    m1.push('/');
    m1.push('/');
    let mut m2: Vec<char> = Vec::new();
    m2.push('h');
    m2.push('t');
    m2.push('t');
    m2.push('p');
    m2.push('s');
    m2.push(':');
    m2.push('/');
    m2.push('/');
    proof {
        reveal_strlit("http://");
        reveal_strlit("https://");
        assert(m1@ =~= "http://"@);
        assert(m2@ =~= "https://"@);
    }
    let j1 = crate::textutil::first_sub_exec(v, &m1);
    if j1 < v.len() && m1.len() <= v.len() - j1 {
        return true;
    }
    let j2 = crate::textutil::first_sub_exec(v, &m2);
    if j2 < v.len() && m2.len() <= v.len() - j2 {
        return true;
    }
    false
}

/// The data-hygiene pass, run before any country-specific logic.
pub(crate) fn sanity_clean_place(addr: &mut Place)
    ensures
        final(addr)@ == sanitize_spec(old(addr)@),
{
    let n = addr.view_len();
    let ghost a0 = addr@;
    match addr.get(Component::Postcode) {
        Option::Some(pc) => {
            let pcv = str_to_chars(pc.as_str());
            if pcv.len() > 20 || has_postcode_range_exec(&pcv) {
                addr.set(Component::Postcode, Option::None);
            } else if has_postcode_pair_exec(&pcv) {
                let five = crate::textutil::vec_slice(&pcv, 0, 5);
                addr.set(Component::Postcode, Option::Some(chars_to_string(&five)));
            }
        },
        Option::None => {},
    }
    let ghost a1 = addr@;
    proof {
        assert(a1.len() == NUM_COMPONENTS);
        assert forall|i: int| 0 <= i < a1.len() implies a1[i] == (if i
            == Component::Postcode.as_index() {
            match a0[i] {
                Option::Some(pc) => sanitize_postcode(pc),
                Option::None => Option::None,
            }
        } else {
            a0[i]
        }) by {}
    }
    let mut i: usize = 0;
    while i < n
        invariant
            n == NUM_COMPONENTS,
            a1.len() == NUM_COMPONENTS,
            addr@.len() == NUM_COMPONENTS,
            i <= n,
            forall|j: int|
                0 <= j < i ==> addr@[j] == (match a1[j] {
                    Option::Some(t) => if has_url(t) {
                        Option::<Seq<char>>::None
                    } else {
                        Option::Some(t)
                    },
                    Option::None => Option::None,
                }),
            forall|j: int| i <= j < NUM_COMPONENTS ==> addr@[j] == a1[j],
        decreases n - i,
    {
        let c = Component::from_index(i);
        let clear = match addr.get(c) {
            Option::Some(v) => {
                let vv = str_to_chars(v.as_str());
                has_url_exec(&vv)
            },
            Option::None => false,
        };
        if clear {
            addr.set(c, Option::None);
        }
        i += 1;
    }
    proof {
        assert(final(addr)@ =~= sanitize_spec(a0));
    }
}

/// The lowercase form of a text, character by character.
pub open spec fn lower_seq(s: Seq<char>) -> Seq<char> {
    s.map_values(|c: char| lower_char(c))
}

/// Where the effective country comes from: a caller override first, else the
/// place's own country_code field; the chosen text is then normalized, and
/// failure to parse means "no country". On top of that, a place in the
/// Netherlands whose State field names one of the overseas territories is
/// moved to that territory's code, with the Country field set to the
/// localized name. The result is the resolved code and the possibly updated
/// place.
pub open spec fn resolve_country(conf_cc: Option<Seq<char>>, a: PlaceView) -> (
    Option<Seq<char>>,
    PlaceView,
) {
    let raw = if conf_cc is Some {
        conf_cc
    } else {
        a[Component::CountryCode.as_index()]
    };
    let cc0 = match raw {
        Option::Some(s) => normalize_cc(s),
        Option::None => Option::None,
    };
    if cc0 == Option::Some(seq!['N', 'L']) && a[Component::State.as_index()] is Some {
        let st = a[Component::State.as_index()]->0;
        let cc1 = if st == "Curaçao"@ {
            Option::Some(seq!['C', 'W'])
        } else {
            cc0
        };
        let a1 = if st == "Curaçao"@ {
            a.update(Component::Country.as_index(), Option::Some("Curaçao"@))
        } else {
            a
        };
        if lower_seq(st) == "sint maarten"@ {
            (
                Option::Some(seq!['S', 'X']),
                a1.update(Component::Country.as_index(), Option::Some("Sint Maarten"@)),
            )
        } else if lower_seq(st) == "aruba"@ {
            (
                Option::Some(seq!['A', 'W']),
                a1.update(Component::Country.as_index(), Option::Some("Aruba"@)),
            )
        } else {
            (cc1, a1)
        }
    } else {
        (cc0, a)
    }
}

/// Lowercase a string character by character.
fn lower_string(s: &str) -> (r: String)
    ensures
        r@ == lower_seq(s@),
{
    let v = str_to_chars(s);
    let mut out: Vec<char> = Vec::new();
    let mut i: usize = 0;
    while i < v.len()
        invariant
            i <= v@.len(),
            out@.len() == i,
            forall|j: int| 0 <= j < i ==> out@[j] == lower_char(#[trigger] v@[j]),
        decreases v@.len() - i,
    {
        out.push(crate::country::lower_char_exec(v[i]));
        i += 1;
    }
    proof {
        assert(out@ =~= lower_seq(s@));
    }
    chars_to_string(&out)
}

/// Executable `resolve_country`: find the effective country for one place
/// and apply the territory fix-ups.
pub(crate) fn find_country_code(addr: &mut Place, conf: &Configuration) -> (r: Option<CountryCode>)
    ensures
        final(addr)@ == resolve_country(conf.cc_view(), old(addr)@).1,
        match r {
            Option::Some(cc) => resolve_country(conf.cc_view(), old(addr)@).0 == Option::Some(cc@),
            Option::None => resolve_country(conf.cc_view(), old(addr)@).0 is None,
        },
{
    let n = addr.view_len();
    let raw: Option<String> = match &conf.country_code {
        Option::Some(s) => Option::Some(s.clone()),
        Option::None => match addr.get(Component::CountryCode) {
            Option::Some(s) => Option::Some(s.clone()),
            Option::None => Option::None,
        },
    };
    let mut cc: Option<CountryCode> = match raw {
        Option::Some(s) => match CountryCode::from_str(s.as_str()) {
            Result::Ok(c) => Option::Some(c),
            Result::Err(_) => Option::None,
        },
        Option::None => Option::None,
    };
    let is_nl = match &cc {
        Option::Some(c) => str_eq(c.as_str(), "NL"),
        Option::None => false,
    };
    proof {
        reveal_strlit("NL");
        assert("NL"@ =~= seq!['N', 'L']);
    }
    if is_nl {
        let state = match addr.get(Component::State) {
            Option::Some(s) => Option::Some(s.clone()),
            Option::None => Option::None,
        };
        if let Option::Some(st) = state {
            if str_eq(st.as_str(), "Curaçao") {
                cc = match CountryCode::from_str("CW") {
                    Result::Ok(c) => Option::Some(c),
                    Result::Err(_) => Option::None,
                };
                addr.set(Component::Country, Option::Some(String::from_str("Curaçao")));
                proof {
                    reveal_strlit("CW");
                    assert("CW"@ =~= seq!['C', 'W']);
                    assert(normalize_cc("CW"@) == Option::Some(seq!['C', 'W']));
                }
            }
            let low = lower_string(st.as_str());
            if str_eq(low.as_str(), "sint maarten") {
                cc = match CountryCode::from_str("SX") {
                    Result::Ok(c) => Option::Some(c),
                    Result::Err(_) => Option::None,
                };
                addr.set(Component::Country, Option::Some(String::from_str("Sint Maarten")));
                proof {
                    reveal_strlit("SX");
                    assert("SX"@ =~= seq!['S', 'X']);
                    assert(normalize_cc("SX"@) == Option::Some(seq!['S', 'X']));
                }
            } else if str_eq(low.as_str(), "aruba") {
                cc = match CountryCode::from_str("AW") {
                    Result::Ok(c) => Option::Some(c),
                    Result::Err(_) => Option::None,
                };
                addr.set(Component::Country, Option::Some(String::from_str("Aruba")));
                proof {
                    reveal_strlit("AW");
                    assert("AW"@ =~= seq!['A', 'W']);
                    assert(normalize_cc("AW"@) == Option::Some(seq!['A', 'W']));
                }
            }
        }
    }
    cc
}

/// The view of an optional country code.
pub open spec fn opt_cc_view(c: Option<CountryCode>) -> Option<Seq<char>> {
    match c {
        Option::Some(cc) => Option::Some(cc@),
        Option::None => Option::None,
    }
}

/// The formatter: the rule store built once from the configuration corpus,
/// immutable afterwards, read by every formatting call.
#[derive(Debug)]
pub struct Formatter {
    default_template: Template,
    fallback_template: Template,
    templates_by_country: Vec<(CountryCode, Template)>,
    fallback_templates_by_country: Vec<(CountryCode, Template)>,
    rules_by_country: Vec<(CountryCode, Rules)>,
    fallback_rules: Rules,
    state_codes: Vec<(CountryCode, String, String)>,
    county_codes: Vec<(CountryCode, String, String)>,
}

/// In a rule lookup that succeeds, the rule set is one of the stored ones.
proof fn lemma_rules_lookup_in(s: Seq<(CountryCode, Rules)>, key: Seq<char>)
    ensures
        rules_lookup(s, key) matches Option::Some(r) ==> exists|i: int|
            0 <= i < s.len() && (#[trigger] s[i]).1 == r,
    decreases s.len(),
{
    if s.len() > 0 && !(s[0].0@ == key) {
        lemma_rules_lookup_in(s.skip(1), key);
        if rules_lookup(s, key) is Some {
            let r = rules_lookup(s, key)->0;
            let i = choose|i: int| 0 <= i < s.skip(1).len() && (#[trigger] s.skip(1)[i]).1 == r;
            assert(s[i + 1] == s.skip(1)[i]);
        }
    }
}

impl Formatter {
    #[verifier::type_invariant]
    spec fn inv(self) -> bool {
        &&& rules_wf(self.fallback_rules)
        &&& forall|i: int|
            0 <= i < self.rules_by_country@.len() ==> rules_wf(
                (#[trigger] self.rules_by_country@[i]).1,
            )
    }

    /// The text of the default template.
    pub closed spec fn default_template_text(&self) -> Seq<char> {
        self.default_template@
    }

    /// The text of the global reduced-detail template.
    pub closed spec fn fallback_template_text(&self) -> Seq<char> {
        self.fallback_template@
    }

    /// The text of a country's primary template, if that country has one.
    pub closed spec fn template_text_for(&self, c: Seq<char>) -> Option<Seq<char>> {
        match tpl_lookup(self.templates_by_country@, c) {
            Option::Some(t) => Option::Some(t@),
            Option::None => Option::None,
        }
    }

    /// The text of a country's reduced-detail template, if that country has
    /// one.
    pub closed spec fn fallback_text_for(&self, c: Seq<char>) -> Option<Seq<char>> {
        match tpl_lookup(self.fallback_templates_by_country@, c) {
            Option::Some(t) => Option::Some(t@),
            Option::None => Option::None,
        }
    }

    /// A country's stored rule set, if that country has one.
    pub closed spec fn rules_entry_for(&self, c: Seq<char>) -> Option<Rules> {
        rules_lookup(self.rules_by_country@, c)
    }

    /// The rule set effective for a resolved country: the country's own, or
    /// the global fallback when the country has none (or none resolved).
    pub open spec fn rules_for_spec(&self, cc: Option<Seq<char>>) -> Rules {
        match cc {
            Option::None => self.fallback_rules_spec(),
            Option::Some(c) => match self.rules_entry_for(c) {
                Option::Some(r) => r,
                Option::None => self.fallback_rules_spec(),
            },
        }
    }

    /// The global fallback rule set.
    pub closed spec fn fallback_rules_spec(&self) -> Rules {
        self.fallback_rules
    }

    /// An entry of the state-code reference table.
    pub closed spec fn state_code_spec(&self, c: Seq<char>, name: Seq<char>) -> Option<Seq<char>> {
        code_lookup(self.state_codes@, c, name)
    }

    /// An entry of the county-code reference table.
    pub closed spec fn county_code_spec(&self, c: Seq<char>, name: Seq<char>) -> Option<Seq<char>> {
        code_lookup(self.county_codes@, c, name)
    }

    /// Which template applies: with no resolved country, the default one.
    /// With a country, a place lacking both road and postcode renders
    /// through the country's reduced-detail template (else the global one);
    /// a place with enough detail renders through the country's primary
    /// template (else the default one).
    pub open spec fn select_template_spec(&self, a: PlaceView, cc: Option<Seq<char>>) -> Seq<
        char,
    > {
        match cc {
            Option::None => self.default_template_text(),
            Option::Some(c) => if !has_min_components(a) {
                match self.fallback_text_for(c) {
                    Option::Some(t) => t,
                    Option::None => self.fallback_template_text(),
                }
            } else {
                match self.template_text_for(c) {
                    Option::Some(t) => t,
                    Option::None => self.default_template_text(),
                }
            },
        }
    }

    /// Executable `select_template_spec`.
    pub(crate) fn find_template<'a>(&'a self, addr: &Place, country_code: &Option<CountryCode>) -> (
        r: &'a Template)
        ensures
            r@ == self.select_template_spec(addr@, opt_cc_view(*country_code)),
    {
        match country_code {
            Option::None => &self.default_template,
            Option::Some(c) => {
                if !has_minimum_place_components(addr) {
                    match tpl_find(&self.fallback_templates_by_country, 0, c.as_str()) {
                        Option::Some(t) => {
                            proof {
                                assert(self.fallback_templates_by_country@.skip(0)
                                    =~= self.fallback_templates_by_country@);
                            }
                            t
                        },
                        Option::None => {
                            proof {
                                assert(self.fallback_templates_by_country@.skip(0)
                                    =~= self.fallback_templates_by_country@);
                            }
                            &self.fallback_template
                        },
                    }
                } else {
                    match tpl_find(&self.templates_by_country, 0, c.as_str()) {
                        Option::Some(t) => {
                            proof {
                                assert(self.templates_by_country@.skip(0)
                                    =~= self.templates_by_country@);
                            }
                            t
                        },
                        Option::None => {
                            proof {
                                assert(self.templates_by_country@.skip(0)
                                    =~= self.templates_by_country@);
                            }
                            &self.default_template
                        },
                    }
                }
            },
        }
    }

    /// Executable `rules_for_spec`; the result is always well-formed.
    fn rules_for_ref<'a>(&'a self, country_code: &Option<CountryCode>) -> (r: &'a Rules)
        ensures
            *r == self.rules_for_spec(opt_cc_view(*country_code)),
            rules_wf(*r),
    {
        proof {
            use_type_invariant(self);
        }
        match country_code {
            Option::None => &self.fallback_rules,
            Option::Some(c) => match rules_find(&self.rules_by_country, 0, c.as_str()) {
                Option::Some(r) => {
                    proof {
                        assert(self.rules_by_country@.skip(0) =~= self.rules_by_country@);
                        lemma_rules_lookup_in(self.rules_by_country@, c@);
                    }
                    r
                },
                Option::None => {
                    proof {
                        assert(self.rules_by_country@.skip(0) =~= self.rules_by_country@);
                    }
                    &self.fallback_rules
                },
            },
        }
    }
}

/// A place has enough detail for the primary template when it has a road or
/// a postcode.
pub open spec fn has_min_components(a: PlaceView) -> bool {
    a[Component::Road.as_index()] is Some || a[Component::Postcode.as_index()] is Some
}

/// Executable `has_min_components`.
pub(crate) fn has_minimum_place_components(addr: &Place) -> (r: bool)
    ensures
        r == has_min_components(addr@),
{
    addr.get(Component::Road).is_some() || addr.get(Component::Postcode).is_some()
}

/// One pre-render replacement applied to a whole place: an all-scope rule
/// replaces the first match in every non-empty field, in component order; a
/// component-scoped rule does the same for its one field.
pub open spec fn apply_rule(rule: ReplaceRule, a: PlaceView) -> PlaceView {
    match rule {
        ReplaceRule::All(rep) => Seq::new(
            a.len(),
            |i: int|
                match a[i] {
                    Option::Some(v) => if v.len() > 0 {
                        Option::Some(
                            crate::rx::rx_replace_first_of(rep.pattern@, v, rep.replacement_value@),
                        )
                    } else {
                        Option::Some(v)
                    },
                    Option::None => Option::None,
                },
        ),
        ReplaceRule::Component(c, rep) => {
            if 0 <= c.as_index() < a.len() && a[c.as_index()] is Some && a[c.as_index()]->0.len()
                > 0 {
                a.update(
                    c.as_index(),
                    Option::Some(
                        crate::rx::rx_replace_first_of(
                            rep.pattern@,
                            a[c.as_index()]->0,
                            rep.replacement_value@,
                        ),
                    ),
                )
            } else {
                a
            }
        },
    }
}

/// The pre-render replacements of a rule set, applied in declared order from
/// index `i` on.
pub open spec fn apply_rules_from(rules: Seq<ReplaceRule>, a: PlaceView, i: int) -> PlaceView
    decreases rules.len() - i,
{
    if i < 0 || i >= rules.len() {
        a
    } else {
        apply_rules_from(rules, apply_rule(rules[i], a), i + 1)
    }
}

/// The forced fields of a rule set: the injected component, then the literal
/// country, then the literal country code.
pub open spec fn apply_injections(rules: Rules, a: PlaceView) -> PlaceView {
    let a1 = match rules.add_component {
        Option::Some(nc) => a.update(nc.component.as_index(), Option::Some(nc.new_value@)),
        Option::None => a,
    };
    let a2 = match rules.change_country {
        Option::Some(c) => a1.update(Component::Country.as_index(), Option::Some(c@)),
        Option::None => a1,
    };
    match rules.change_country_code {
        Option::Some(c) => a2.update(Component::CountryCode.as_index(), Option::Some(c@)),
        Option::None => a2,
    }
}

impl Formatter {
    /// The derived admin-area codes: when the place's country code parses
    /// and the state-code field is empty, a state found in the reference
    /// table sets the state-code field; a county found in its table
    /// overwrites the county field itself, as the source rules expect.
    pub open spec fn apply_code_derivation(&self, a: PlaceView) -> PlaceView {
        match a[Component::CountryCode.as_index()] {
            Option::Some(ccs) => match normalize_cc(ccs) {
                Option::Some(c) => {
                    let a1 = if a[Component::StateCode.as_index()] is None
                        && a[Component::State.as_index()] is Some {
                        match self.state_code_spec(c, a[Component::State.as_index()]->0) {
                            Option::Some(code) => a.update(
                                Component::StateCode.as_index(),
                                Option::Some(code),
                            ),
                            Option::None => a,
                        }
                    } else {
                        a
                    };
                    if a1[Component::CountyCode.as_index()] is None
                        && a1[Component::County.as_index()] is Some {
                        match self.county_code_spec(c, a1[Component::County.as_index()]->0) {
                            Option::Some(code) => a1.update(
                                Component::County.as_index(),
                                Option::Some(code),
                            ),
                            Option::None => a1,
                        }
                    } else {
                        a1
                    }
                },
                Option::None => a,
            },
            Option::None => a,
        }
    }

    /// The whole pre-render pass: replacements in order, forced fields,
    /// derived codes.
    pub open spec fn preformat_spec(&self, rules: Rules, a: PlaceView) -> PlaceView {
        self.apply_code_derivation(apply_injections(rules, apply_rules_from(rules.replace@, a, 0)))
    }
}

/// Executable `apply_rule`.
fn apply_rule_exec(rule: &ReplaceRule, addr: &mut Place)
    requires
        crate::rules::replace_rule_wf(*rule),
    ensures
        final(addr)@ == apply_rule(*rule, old(addr)@),
{
    match rule {
        ReplaceRule::All(rep) => {
            let n = addr.view_len();
            let ghost a0 = addr@;
            let mut i: usize = 0;
            while i < n
                invariant
                    n == NUM_COMPONENTS,
                    a0.len() == NUM_COMPONENTS,
                    addr@.len() == NUM_COMPONENTS,
                    i <= n,
                    crate::rules::replacement_wf(*rep),
                    forall|j: int|
                        0 <= j < i ==> addr@[j] == (match a0[j] {
                            Option::Some(v) => if v.len() > 0 {
                                Option::Some(
                                    crate::rx::rx_replace_first_of(
                                        rep.pattern@,
                                        v,
                                        rep.replacement_value@,
                                    ),
                                )
                            } else {
                                Option::Some(v)
                            },
                            Option::None => Option::<Seq<char>>::None,
                        }),
                    forall|j: int| i <= j < NUM_COMPONENTS ==> addr@[j] == a0[j],
                decreases n - i,
            {
                let c = Component::from_index(i);
                let new_val: Option<String> = match addr.get(c) {
                    Option::Some(v) => {
                        if v.as_str().unicode_len() > 0 {
                            Option::Some(
                                crate::rx::rx_replace_first(
                                    rep.pattern.as_str(),
                                    v.as_str(),
                                    rep.replacement_value.as_str(),
                                ),
                            )
                        } else {
                            Option::Some(v.clone())
                        }
                    },
                    Option::None => Option::None,
                };
                addr.set(c, new_val);
                i += 1;
            }
            proof {
                assert(final(addr)@ =~= apply_rule(*rule, a0));
            }
        },
        ReplaceRule::Component(c, rep) => {
            let n = addr.view_len();
            let new_val: Option<String> = match addr.get(*c) {
                Option::Some(v) => {
                    if v.as_str().unicode_len() > 0 {
                        Option::Some(
                            crate::rx::rx_replace_first(
                                rep.pattern.as_str(),
                                v.as_str(),
                                rep.replacement_value.as_str(),
                            ),
                        )
                    } else {
                        Option::None
                    }
                },
                Option::None => Option::None,
            };
            match new_val {
                Option::Some(v) => {
                    addr.set(*c, Option::Some(v));
                    proof {
                        assert(final(addr)@ =~= apply_rule(*rule, old(addr)@));
                    }
                },
                Option::None => {
                    proof {
                        assert(final(addr)@ =~= apply_rule(*rule, old(addr)@));
                    }
                },
            }
        },
    }
}

impl Formatter {
    /// Executable `preformat_spec`: mutate the place as the resolved
    /// country's rules say, before rendering.
    pub(crate) fn preformat(&self, rules: &Rules, addr: &mut Place)
        requires
            rules_wf(*rules),
        ensures
            final(addr)@ == self.preformat_spec(*rules, old(addr)@),
    {
        let ghost a0 = addr@;
        let mut i: usize = 0;
        while i < rules.replace.len()
            invariant
                rules_wf(*rules),
                i <= rules.replace@.len(),
                apply_rules_from(rules.replace@, addr@, i as int) == apply_rules_from(
                    rules.replace@,
                    a0,
                    0,
                ),
            decreases rules.replace@.len() - i,
        {
            let ghost before = addr@;
            apply_rule_exec(&rules.replace[i], addr);
            i += 1;
            proof {
                assert(apply_rules_from(rules.replace@, before, i - 1) == apply_rules_from(
                    rules.replace@,
                    apply_rule(rules.replace@[i - 1], before),
                    i as int,
                ));
            }
        }
        proof {
            assert(addr@ == apply_rules_from(rules.replace@, a0, 0));
        }
        match &rules.add_component {
            Option::Some(nc) => {
                addr.set(nc.component, Option::Some(nc.new_value.clone()));
            },
            Option::None => {},
        }
        match &rules.change_country {
            Option::Some(c) => {
                addr.set(Component::Country, Option::Some(c.clone()));
            },
            Option::None => {},
        }
        match &rules.change_country_code {
            Option::Some(c) => {
                addr.set(Component::CountryCode, Option::Some(c.clone()));
            },
            Option::None => {},
        }
        proof {
            assert(addr@ == apply_injections(*rules, apply_rules_from(rules.replace@, a0, 0)));
        }
        let ghost a2 = addr@;
        let country: Option<CountryCode> = match addr.get(Component::CountryCode) {
            Option::Some(ccs) => match CountryCode::from_str(ccs.as_str()) {
                Result::Ok(c) => Option::Some(c),
                Result::Err(_) => Option::None,
            },
            Option::None => Option::None,
        };
        if let Option::Some(country) = country {
            if addr.get(Component::StateCode).is_none() {
                let state: Option<String> = match addr.get(Component::State) {
                    Option::Some(s) => Option::Some(s.clone()),
                    Option::None => Option::None,
                };
                if let Option::Some(state) = state {
                    match code_find(&self.state_codes, 0, country.as_str(), state.as_str()) {
                        Option::Some(new_state) => {
                            proof {
                                assert(self.state_codes@.skip(0) =~= self.state_codes@);
                            }
                            addr.set(Component::StateCode, Option::Some(new_state));
                        },
                        Option::None => {
                            proof {
                                assert(self.state_codes@.skip(0) =~= self.state_codes@);
                            }
                        },
                    }
                }
            }
            if addr.get(Component::CountyCode).is_none() {
                let county: Option<String> = match addr.get(Component::County) {
                    Option::Some(s) => Option::Some(s.clone()),
                    Option::None => Option::None,
                };
                if let Option::Some(county) = county {
                    match code_find(&self.county_codes, 0, country.as_str(), county.as_str()) {
                        Option::Some(new_county) => {
                            proof {
                                assert(self.county_codes@.skip(0) =~= self.county_codes@);
                            }
                            addr.set(Component::County, Option::Some(new_county));
                        },
                        Option::None => {
                            proof {
                                assert(self.county_codes@.skip(0) =~= self.county_codes@);
                            }
                        },
                    }
                }
            }
        }
        proof {
            assert(addr@ == self.apply_code_derivation(a2));
        }
    }
}

/// The field values handed to the renderer: for every set component, in
/// declaration order, its name and its value.
pub open spec fn pairs_of(a: PlaceView, i: int) -> Seq<(Seq<char>, Seq<char>)>
    decreases a.len() - i,
{
    if i < 0 || i >= a.len() {
        Seq::empty()
    } else {
        match a[i] {
            Option::Some(v) => seq![(Component::from_index_spec(i).name_of(), v)] + pairs_of(
                a,
                i + 1,
            ),
            Option::None => pairs_of(a, i + 1),
        }
    }
}

/// Executable `pairs_of`.
fn build_pairs_from(addr: &Place, i: usize) -> (r: Vec<(String, String)>)
    requires
        i <= NUM_COMPONENTS,
    ensures
        r.deep_view() == pairs_of(addr@, i as int),
    decreases NUM_COMPONENTS - i,
{
    let n = addr.view_len();
    if i == n {
        let r: Vec<(String, String)> = Vec::new();
        proof {
            assert(r.deep_view() =~= pairs_of(addr@, i as int));
        }
        r
    } else {
        let c = Component::from_index(i);
        let rest = build_pairs_from(addr, i + 1);
        match addr.get(c) {
            Option::Some(v) => {
                let mut r: Vec<(String, String)> = Vec::new();
                r.push((c.name(), v.clone()));
                let mut rest2 = rest;
                r.append(&mut rest2);
                proof {
                    assert(r.deep_view() =~= pairs_of(addr@, i as int));
                }
                r
            },
            Option::None => {
                proof {
                    assert(rest.deep_view() =~= pairs_of(addr@, i as int));
                }
                rest
            },
        }
    }
}

/// The country's whole-text post-render replacements, applied in order from
/// index `i` on; each replaces all matches.
pub open spec fn apply_postformat(s: Seq<char>, pf: Seq<Replacement>, i: int) -> Seq<char>
    decreases pf.len() - i,
{
    if i < 0 || i >= pf.len() {
        s
    } else {
        apply_postformat(
            crate::rx::rx_replace_all_of(pf[i].pattern@, s, pf[i].replacement_value@),
            pf,
            i + 1,
        )
    }
}

/// The whole postprocessing of a rendered text: the fixed cascade, the
/// country's post-render replacements, deduplication, and the final trim
/// with one trailing newline.
pub open spec fn postprocess_full(t: Seq<char>, pf: Seq<Replacement>) -> Seq<char> {
    crate::postprocess::finalize(
        crate::postprocess::dedup_text(apply_postformat(crate::postprocess::cascade(t), pf, 0)),
    )
}

/// Executable `postprocess_full`.
fn postprocess_with(text: &str, pf: &Vec<Replacement>) -> (r: String)
    requires
        forall|i: int| 0 <= i < pf@.len() ==> crate::rules::replacement_wf(#[trigger] pf@[i]),
    ensures
        r@ == postprocess_full(text@, pf@),
{
    let v = str_to_chars(text);
    let c = crate::postprocess::cascade_exec(&v);
    let mut cur = chars_to_string(&c);
    let mut i: usize = 0;
    while i < pf.len()
        invariant
            i <= pf@.len(),
            forall|j: int| 0 <= j < pf@.len() ==> crate::rules::replacement_wf(#[trigger] pf@[j]),
            apply_postformat(cur@, pf@, i as int) == apply_postformat(
                crate::postprocess::cascade(text@),
                pf@,
                0,
            ),
        decreases pf@.len() - i,
    {
        cur = crate::rx::rx_replace_all(
            pf[i].pattern.as_str(),
            cur.as_str(),
            pf[i].replacement_value.as_str(),
        );
        i += 1;
    }
    let w = str_to_chars(cur.as_str());
    let d = crate::postprocess::dedup_text_exec(&w);
    let f = crate::postprocess::finalize_exec(&d);
    chars_to_string(&f)
}

impl Formatter {
    /// What formatting a place yields: the resolved country and fixed-up
    /// place, the sanitized fields, the selected template, the
    /// country's rules applied before rendering, the rendering itself, and
    /// the postprocessing of its output. `None` exactly when the rendering
    /// engine fails.
    pub open spec fn format_spec(&self, a: PlaceView, conf_cc: Option<Seq<char>>) -> Option<
        Seq<char>,
    > {
        let rc = resolve_country(conf_cc, a);
        let a2 = sanitize_spec(rc.1);
        let tmpl = self.select_template_spec(a2, rc.0);
        let rules = self.rules_for_spec(rc.0);
        let a3 = self.preformat_spec(rules, a2);
        match crate::render::render_text_spec(tmpl, pairs_of(a3, 0)) {
            Option::None => Option::None,
            Option::Some(t) => Option::Some(postprocess_full(t, rules.postformat_replace@)),
        }
    }

    /// Format a place, honouring the configuration's country override.
    /// The only error returned is a failure of the rendering engine; every
    /// other anomaly degrades to a fallback.
    pub fn format_with_config(&self, addr: Place, conf: Configuration) -> (r: Result<String, Error>)
        ensures
            r is Ok <==> self.format_spec(addr@, conf.cc_view()) is Some,
            r is Ok ==> r->Ok_0@ == self.format_spec(addr@, conf.cc_view())->0,
            r is Err ==> r->Err_0 == Error::RenderFailed,
    {
        let mut addr = addr;
        let country_code = find_country_code(&mut addr, &conf);
        sanity_clean_place(&mut addr);
        let template_text = String::from_str(self.find_template(&addr, &country_code).text());
        let rules = self.rules_for_ref(&country_code);
        self.preformat(rules, &mut addr);
        let pairs = build_pairs_from(&addr, 0);
        let text = match crate::render::render_text(template_text.as_str(), &pairs) {
            Result::Ok(t) => t,
            Result::Err(e) => {
                return Result::Err(e);
            },
        };
        Result::Ok(postprocess_with(text.as_str(), &rules.postformat_replace))
    }

    /// Format a place with the default configuration: country detection from
    /// the place itself.
    pub fn format(&self, addr: Place) -> (r: Result<String, Error>)
        ensures
            r is Ok <==> self.format_spec(addr@, Option::None) is Some,
            r is Ok ==> r->Ok_0@ == self.format_spec(addr@, Option::None)->0,
            r is Err ==> r->Err_0 == Error::RenderFailed,
    {
        self.format_with_config(addr, Configuration::default())
    }
}

/// One entry of the configuration corpus: everything a country may declare.
pub struct CountryEntry {
    /// The two-letter code of the country.
    pub country_code: String,
    /// The primary template text; required unless the entry inherits.
    pub address_template: Option<String>,
    /// The reduced-detail template text, if the country has one.
    pub fallback_template: Option<String>,
    /// Another country whose resolved template this entry copies.
    pub use_country: Option<String>,
    /// A literal country name forced by an inheriting entry.
    pub change_country: Option<String>,
    /// An injected component, written `component=value`; only a State
    /// injection is accepted.
    pub add_component: Option<String>,
    /// Pre-render replace pairs.
    pub replace: Vec<(String, String)>,
    /// Post-render, whole-text replace pairs.
    pub postformat_replace: Vec<(String, String)>,
}

/// The checks on one entry that look at that entry alone.
pub open spec fn entry_valid_local(e: CountryEntry) -> bool {
    &&& normalize_cc(e.country_code@) is Some
    &&& (e.fallback_template matches Option::Some(t) ==> crate::render::hb_template_ok(t@))
    &&& match e.use_country {
        Option::None => {
            &&& e.address_template matches Option::Some(t) && crate::render::hb_template_ok(t@)
            &&& crate::rules::pairs_ok(e.replace.deep_view())
            &&& crate::rules::postformat_pairs_ok(e.postformat_replace.deep_view())
        },
        Option::Some(p) => {
            &&& normalize_cc(p@) is Some
            &&& add_component_valid(e.add_component)
        },
    }
}

/// A valid injection directive: `component=value` with exactly one `=` and
/// the one accepted component, State.
pub open spec fn add_component_valid(ac: Option<String>) -> bool {
    match ac {
        Option::None => true,
        Option::Some(s) => {
            let parts = crate::textutil::split_sub(s@, seq!['=']);
            &&& parts.len() == 2
            &&& Component::from_name_spec(parts[0]) == Option::Some(Component::State)
        },
    }
}

/// An inheriting entry's reference resolves: some entry of the corpus has
/// the referenced code and does not itself inherit. A reference to an
/// inheriting entry (a chain or a cycle deeper than one hop) does not
/// resolve, and fails the load.
pub open spec fn parent_ok(entries: Seq<CountryEntry>, pcode: Seq<char>) -> bool {
    exists|j: int|
        0 <= j < entries.len() && normalize_cc((#[trigger] entries[j]).country_code@)
            == Option::Some(pcode) && entries[j].use_country is None
}

/// No two entries name the same country.
pub open spec fn entries_unique(entries: Seq<CountryEntry>) -> bool {
    forall|i: int, j: int|
        0 <= i < j < entries.len() ==> normalize_cc((#[trigger] entries[i]).country_code@)
            != normalize_cc((#[trigger] entries[j]).country_code@)
}

/// Every country code of an admin-code table parses.
pub open spec fn codes_valid(t: Seq<(String, String, String)>) -> bool {
    forall|i: int| 0 <= i < t.len() ==> normalize_cc((#[trigger] t[i]).0@) is Some
}

/// What the whole corpus must satisfy for the load to succeed.
pub open spec fn corpus_valid(
    default_template: Seq<char>,
    fallback_template: Seq<char>,
    entries: Seq<CountryEntry>,
    state_codes: Seq<(String, String, String)>,
    county_codes: Seq<(String, String, String)>,
) -> bool {
    &&& crate::render::hb_template_ok(default_template)
    &&& crate::render::hb_template_ok(fallback_template)
    &&& forall|i: int| 0 <= i < entries.len() ==> entry_valid_local(#[trigger] entries[i])
    &&& entries_unique(entries)
    &&& forall|i: int|
        0 <= i < entries.len() ==> ((#[trigger] entries[i]).use_country matches Option::Some(p)
            ==> parent_ok(entries, normalize_cc(p@)->0))
    &&& codes_valid(state_codes)
    &&& codes_valid(county_codes)
}

/// The lookup of an admin code in a corpus table, by resolved country code
/// and localized area name.
pub open spec fn codes_model(
    t: Seq<(String, String, String)>,
    c: Seq<char>,
    n: Seq<char>,
) -> Option<Seq<char>>
    decreases t.len(),
{
    if t.len() == 0 {
        Option::None
    } else if normalize_cc(t[0].0@) == Option::Some(c) && t[0].1@ == n {
        Option::Some(t[0].2@)
    } else {
        codes_model(t.skip(1), c, n)
    }
}

/// What one non-inheriting entry's stored rules hold.
pub open spec fn rules_from_entry(r: Rules, e: CountryEntry) -> bool {
    &&& r.replace@.len() == e.replace@.len()
    &&& forall|k: int|
        0 <= k < e.replace@.len() ==> crate::rules::rule_matches_pair(
            #[trigger] r.replace@[k],
            e.replace.deep_view()[k].0,
            e.replace.deep_view()[k].1,
        )
    &&& r.postformat_replace@.len() == e.postformat_replace@.len()
    &&& forall|k: int|
        0 <= k < e.postformat_replace@.len() ==> (#[trigger] r.postformat_replace@[k]).pattern@
            == e.postformat_replace.deep_view()[k].0 && r.postformat_replace@[k].replacement_value@
            == e.postformat_replace.deep_view()[k].1
    &&& r.change_country is None
    &&& r.change_country_code is None
    &&& r.add_component is None
}

/// What an inheriting entry's synthesized rules hold: the parent's code is
/// forced, the declared country name and State injection carried over, and
/// no replacements of its own.
pub open spec fn inherited_rules_from(r: Rules, e: CountryEntry, pcode: Seq<char>) -> bool {
    &&& r.replace@.len() == 0
    &&& r.postformat_replace@.len() == 0
    &&& r.change_country_code matches Option::Some(s) && s@ == pcode
    &&& match e.change_country {
        Option::Some(cs) => r.change_country matches Option::Some(x) && x@ == cs@,
        Option::None => r.change_country is None,
    }
    &&& match e.add_component {
        Option::Some(acs) => r.add_component matches Option::Some(nc) && nc.component
            == Component::State && nc.new_value@ == crate::textutil::split_sub(
            acs@,
            seq!['='],
        )[1],
        Option::None => r.add_component is None,
    }
}

/// What the built store holds for one corpus entry.
pub open spec fn entry_resolved(f: &Formatter, entries: Seq<CountryEntry>, i: int) -> bool {
    let e = entries[i];
    let c = normalize_cc(e.country_code@)->0;
    &&& match e.fallback_template {
        Option::Some(t) => f.fallback_text_for(c) == Option::Some(t@),
        Option::None => f.fallback_text_for(c) is None,
    }
    &&& match e.use_country {
        Option::None => {
            &&& f.template_text_for(c) == Option::Some(e.address_template->0@)
            &&& f.rules_entry_for(c) matches Option::Some(r) && rules_from_entry(r, e)
        },
        Option::Some(p) => {
            &&& f.template_text_for(c) == f.template_text_for(normalize_cc(p@)->0)
            &&& f.rules_entry_for(c) matches Option::Some(r) && inherited_rules_from(
                r,
                e,
                normalize_cc(p@)->0,
            )
        },
    }
}

/// Appending a pair does not change the lookup of a key that already
/// resolves, and decides a key that did not.
proof fn lemma_tpl_lookup_push(s: Seq<(CountryCode, Template)>, x: (CountryCode, Template), key: Seq<char>)
    ensures
        tpl_lookup(s.push(x), key) == (if tpl_lookup(s, key) is Some {
            tpl_lookup(s, key)
        } else if x.0@ == key {
            Option::Some(x.1)
        } else {
            Option::<Template>::None
        }),
    decreases s.len(),
{
    if s.len() == 0 {
        assert(s.push(x)[0] == x);
        assert(s.push(x).skip(1) =~= Seq::<(CountryCode, Template)>::empty());
        assert(tpl_lookup(s.push(x).skip(1), key) is None);
        if x.0@ == key {
            assert(tpl_lookup(s.push(x), key) == Option::Some(x.1));
        } else {
            assert(tpl_lookup(s.push(x), key) is None);
        }
    } else {
        lemma_tpl_lookup_push(s.skip(1), x, key);
        assert(s.push(x)[0] == s[0]);
        assert(s.push(x).skip(1) =~= s.skip(1).push(x));
        assert(tpl_lookup(s.push(x).skip(1), key) == tpl_lookup(s.skip(1).push(x), key));
        if s[0].0@ == key {
            assert(tpl_lookup(s.push(x), key) == Option::Some(s[0].1));
            assert(tpl_lookup(s, key) == Option::Some(s[0].1));
        } else {
            assert(tpl_lookup(s.push(x), key) == tpl_lookup(s.skip(1).push(x), key));
            assert(tpl_lookup(s, key) == tpl_lookup(s.skip(1), key));
        }
    }
}

/// The same, for rule sets.
proof fn lemma_rules_lookup_push(s: Seq<(CountryCode, Rules)>, x: (CountryCode, Rules), key: Seq<char>)
    ensures
        rules_lookup(s.push(x), key) == (if rules_lookup(s, key) is Some {
            rules_lookup(s, key)
        } else if x.0@ == key {
            Option::Some(x.1)
        } else {
            Option::<Rules>::None
        }),
    decreases s.len(),
{
    if s.len() == 0 {
        assert(s.push(x)[0] == x);
        assert(s.push(x).skip(1) =~= Seq::<(CountryCode, Rules)>::empty());
        assert(rules_lookup(s.push(x).skip(1), key) is None);
        if x.0@ == key {
            assert(rules_lookup(s.push(x), key) == Option::Some(x.1));
        } else {
            assert(rules_lookup(s.push(x), key) is None);
        }
    } else {
        lemma_rules_lookup_push(s.skip(1), x, key);
        assert(s.push(x)[0] == s[0]);
        assert(s.push(x).skip(1) =~= s.skip(1).push(x));
        assert(rules_lookup(s.push(x).skip(1), key) == rules_lookup(s.skip(1).push(x), key));
        if s[0].0@ == key {
            assert(rules_lookup(s.push(x), key) == Option::Some(s[0].1));
            assert(rules_lookup(s, key) == Option::Some(s[0].1));
        } else {
            assert(rules_lookup(s.push(x), key) == rules_lookup(s.skip(1).push(x), key));
            assert(rules_lookup(s, key) == rules_lookup(s.skip(1), key));
        }
    }
}

/// A lookup that succeeds found its key in the table.
proof fn lemma_tpl_lookup_key_in(s: Seq<(CountryCode, Template)>, key: Seq<char>)
    ensures
        tpl_lookup(s, key) is Some ==> exists|m: int|
            0 <= m < s.len() && (#[trigger] s[m]).0@ == key,
    decreases s.len(),
{
    if s.len() > 0 && !(s[0].0@ == key) {
        lemma_tpl_lookup_key_in(s.skip(1), key);
        if tpl_lookup(s, key) is Some {
            let m = choose|m: int| 0 <= m < s.skip(1).len() && (#[trigger] s.skip(1)[m]).0@ == key;
            assert(s[m + 1] == s.skip(1)[m]);
        }
    }
}

/// The same, for rule sets.
proof fn lemma_rules_lookup_key_in(s: Seq<(CountryCode, Rules)>, key: Seq<char>)
    ensures
        rules_lookup(s, key) is Some ==> exists|m: int|
            0 <= m < s.len() && (#[trigger] s[m]).0@ == key,
    decreases s.len(),
{
    if s.len() > 0 && !(s[0].0@ == key) {
        lemma_rules_lookup_key_in(s.skip(1), key);
        if rules_lookup(s, key) is Some {
            let m = choose|m: int| 0 <= m < s.skip(1).len() && (#[trigger] s.skip(1)[m]).0@ == key;
            assert(s[m + 1] == s.skip(1)[m]);
        }
    }
}

/// The normalized code of one entry.
pub open spec fn norm_of(entries: Seq<CountryEntry>, j: int) -> Seq<char> {
    normalize_cc(entries[j].country_code@)->0
}

/// The normalized code an entry inherits from.
pub open spec fn parent_norm_of(entries: Seq<CountryEntry>, j: int) -> Seq<char> {
    normalize_cc(entries[j].use_country->0@)->0
}

/// Every code of every entry parses.
spec fn all_norms_ok(entries: Seq<CountryEntry>) -> bool {
    forall|k: int|
        0 <= k < entries.len() ==> normalize_cc((#[trigger] entries[k]).country_code@) is Some
}

/// What the fallback-template table says about one entry.
spec fn fb_fact(fbs: Seq<(CountryCode, Template)>, entries: Seq<CountryEntry>, j: int) -> bool {
    match entries[j].fallback_template {
        Option::Some(t) => tpl_lookup(fbs, norm_of(entries, j)) matches Option::Some(tp) && tp@
            == t@,
        Option::None => tpl_lookup(fbs, norm_of(entries, j)) is None,
    }
}

/// What the primary-template table says about one non-inheriting entry.
spec fn prim_fact(tpls: Seq<(CountryCode, Template)>, entries: Seq<CountryEntry>, j: int) -> bool {
    tpl_lookup(tpls, norm_of(entries, j)) matches Option::Some(tp) && tp@ == entries[
        j
    ].address_template->0@
}

/// What the rules table says about one non-inheriting entry.
spec fn rules_fact(rules_v: Seq<(CountryCode, Rules)>, entries: Seq<CountryEntry>, j: int) -> bool {
    rules_lookup(rules_v, norm_of(entries, j)) matches Option::Some(r) && rules_from_entry(
        r,
        entries[j],
    )
}

/// What the primary-template table says about one inheriting entry.
spec fn inh_tpl_fact(tpls: Seq<(CountryCode, Template)>, entries: Seq<CountryEntry>, j: int) -> bool {
    &&& tpl_lookup(tpls, norm_of(entries, j)) matches Option::Some(tp) && tpl_lookup(
        tpls,
        parent_norm_of(entries, j),
    ) matches Option::Some(pt) && tp@ == pt@
}

/// What the rules table says about one inheriting entry.
spec fn inh_rules_fact(rules_v: Seq<(CountryCode, Rules)>, entries: Seq<CountryEntry>, j: int) -> bool {
    rules_lookup(rules_v, norm_of(entries, j)) matches Option::Some(r) && inherited_rules_from(
        r,
        entries[j],
        parent_norm_of(entries, j),
    )
}

/// Every key of a template table is the code of a non-inheriting entry below
/// `ni_bound` or of any entry below `all_bound`.
spec fn tpl_keys_from(
    tpls: Seq<(CountryCode, Template)>,
    entries: Seq<CountryEntry>,
    ni_bound: int,
    all_bound: int,
) -> bool {
    forall|m: int|
        0 <= m < tpls.len() ==> exists|j: int|
            0 <= j < entries.len() && ((j < ni_bound && (#[trigger] entries[j]).use_country
                is None) || j < all_bound) && (#[trigger] tpls[m]).0@ == norm_of(entries, j)
}

/// The same, for the rules table.
spec fn rules_keys_from(
    rules_v: Seq<(CountryCode, Rules)>,
    entries: Seq<CountryEntry>,
    ni_bound: int,
    all_bound: int,
) -> bool {
    forall|m: int|
        0 <= m < rules_v.len() ==> exists|j: int|
            0 <= j < entries.len() && ((j < ni_bound && (#[trigger] entries[j]).use_country
                is None) || j < all_bound) && (#[trigger] rules_v[m]).0@ == norm_of(entries, j)
}

/// A key about to be inserted is fresh: entry `i` is outside the ranges the
/// table was filled from, so by uniqueness its code is not yet a key.
proof fn lemma_fresh_key_tpl(
    tpls: Seq<(CountryCode, Template)>,
    entries: Seq<CountryEntry>,
    ni_bound: int,
    all_bound: int,
    i: int,
)
    requires
        tpl_keys_from(tpls, entries, ni_bound, all_bound),
        entries_unique(entries),
        all_norms_ok(entries),
        0 <= i < entries.len(),
        all_bound <= i,
        ni_bound <= i || entries[i].use_country is Some,
    ensures
        tpl_lookup(tpls, norm_of(entries, i)) is None,
{
    lemma_tpl_lookup_key_in(tpls, norm_of(entries, i));
    if tpl_lookup(tpls, norm_of(entries, i)) is Some {
        let m = choose|m: int|
            0 <= m < tpls.len() && (#[trigger] tpls[m]).0@ == norm_of(entries, i);
        let j = choose|j: int|
            0 <= j < entries.len() && ((j < ni_bound && (#[trigger] entries[j]).use_country
                is None) || j < all_bound) && tpls[m].0@ == norm_of(entries, j);
        assert(j != i);
        assert(normalize_cc(entries[j].country_code@) == normalize_cc(entries[i].country_code@));
        if j < i {
            assert(normalize_cc(entries[j].country_code@) != normalize_cc(
                entries[i].country_code@,
            ));
        } else {
            assert(normalize_cc(entries[i].country_code@) != normalize_cc(
                entries[j].country_code@,
            ));
        }
    }
}

/// The same, for the rules table.
proof fn lemma_fresh_key_rules(
    rules_v: Seq<(CountryCode, Rules)>,
    entries: Seq<CountryEntry>,
    ni_bound: int,
    all_bound: int,
    i: int,
)
    requires
        rules_keys_from(rules_v, entries, ni_bound, all_bound),
        entries_unique(entries),
        all_norms_ok(entries),
        0 <= i < entries.len(),
        all_bound <= i,
        ni_bound <= i || entries[i].use_country is Some,
    ensures
        rules_lookup(rules_v, norm_of(entries, i)) is None,
{
    lemma_rules_lookup_key_in(rules_v, norm_of(entries, i));
    if rules_lookup(rules_v, norm_of(entries, i)) is Some {
        let m = choose|m: int|
            0 <= m < rules_v.len() && (#[trigger] rules_v[m]).0@ == norm_of(entries, i);
        let j = choose|j: int|
            0 <= j < entries.len() && ((j < ni_bound && (#[trigger] entries[j]).use_country
                is None) || j < all_bound) && rules_v[m].0@ == norm_of(entries, j);
        assert(j != i);
        assert(normalize_cc(entries[j].country_code@) == normalize_cc(entries[i].country_code@));
        if j < i {
            assert(normalize_cc(entries[j].country_code@) != normalize_cc(
                entries[i].country_code@,
            ));
        } else {
            assert(normalize_cc(entries[i].country_code@) != normalize_cc(
                entries[j].country_code@,
            ));
        }
    }
}

/// Parse a country code that is known to be valid.
fn parse_cc_checked(s: &str) -> (r: CountryCode)
    requires
        normalize_cc(s@) is Some,
    ensures
        r@ == normalize_cc(s@)->0,
{
    match CountryCode::from_str(s) {
        Result::Ok(c) => c,
        Result::Err(_) => vstd::pervasive::unreached(),
    }
}

/// Check everything about one corpus entry that the entry alone decides.
fn check_entry(e: &CountryEntry) -> (r: Result<(), Error>)
    ensures
        r is Ok <==> entry_valid_local(*e),
        r is Err ==> r->Err_0 != Error::RenderFailed,
{
    if CountryCode::from_str(e.country_code.as_str()).is_err() {
        return Result::Err(Error::InvalidCountryCode);
    }
    match &e.fallback_template {
        Option::Some(t) => {
            if !crate::render::hb_template_parses(t.as_str()) {
                return Result::Err(Error::InvalidTemplate);
            }
        },
        Option::None => {},
    }
    match &e.use_country {
        Option::None => {
            match &e.address_template {
                Option::Some(t) => {
                    if !crate::render::hb_template_parses(t.as_str()) {
                        return Result::Err(Error::InvalidTemplate);
                    }
                },
                Option::None => {
                    return Result::Err(Error::InvalidTemplate);
                },
            }
            match crate::rules::parse_replace_rules(&e.replace) {
                Result::Ok(_) => {},
                Result::Err(er) => {
                    return Result::Err(er);
                },
            }
            match crate::rules::parse_postformat_rules(&e.postformat_replace) {
                Result::Ok(_) => {},
                Result::Err(er) => {
                    return Result::Err(er);
                },
            }
        },
        Option::Some(p) => {
            if CountryCode::from_str(p.as_str()).is_err() {
                return Result::Err(Error::InvalidCountryCode);
            }
            match &e.add_component {
                Option::Some(acs) => {
                    let v = str_to_chars(acs.as_str());
                    let mut eq: Vec<char> = Vec::new();
                    eq.push('=');
                    proof {
                        assert(eq@ =~= seq!['=']);
                    }
                    let parts = crate::textutil::split_sub_exec(&v, &eq);
                    proof {
                        broadcast use crate::textutil::lemma_chars_deep_view;

                        assert(parts@.len() == parts.deep_view().len());
                    }
                    if parts.len() != 2 {
                        return Result::Err(Error::InvalidAddComponent);
                    }
                    let name = chars_to_string(&parts[0]);
                    proof {
                        broadcast use crate::textutil::lemma_chars_deep_view;

                        assert(parts.deep_view()[0] == parts@[0]@);
                    }
                    match Component::from_name(name.as_str()) {
                        Option::Some(c) => {
                            if !(c == Component::State) {
                                return Result::Err(Error::InvalidAddComponent);
                            }
                        },
                        Option::None => {
                            return Result::Err(Error::InvalidAddComponent);
                        },
                    }
                },
                Option::None => {},
            }
        },
    }
    Result::Ok(())
}

/// Whether an inheriting entry's reference resolves to a non-inheriting
/// entry of the corpus.
fn parent_exists(entries: &Vec<CountryEntry>, pcode: &CountryCode) -> (r: bool)
    ensures
        r == parent_ok(entries@, pcode@),
{
    let mut j: usize = 0;
    while j < entries.len()
        invariant
            j <= entries@.len(),
            forall|m: int|
                0 <= m < j ==> !(normalize_cc((#[trigger] entries@[m]).country_code@)
                    == Option::Some(pcode@) && entries@[m].use_country is None),
        decreases entries@.len() - j,
    {
        if entries[j].use_country.is_none() {
            match CountryCode::from_str(entries[j].country_code.as_str()) {
                Result::Ok(c) => {
                    if c.same(pcode) {
                        return true;
                    }
                },
                Result::Err(_) => {},
            }
        }
        j += 1;
    }
    false
}

/// Check that every country code of an admin-code table parses.
fn check_codes(t: &Vec<(String, String, String)>) -> (r: bool)
    ensures
        r == codes_valid(t@),
{
    let mut i: usize = 0;
    while i < t.len()
        invariant
            i <= t@.len(),
            forall|m: int| 0 <= m < i ==> normalize_cc((#[trigger] t@[m]).0@) is Some,
        decreases t@.len() - i,
    {
        if CountryCode::from_str(t[i].0.as_str()).is_err() {
            return false;
        }
        i += 1;
    }
    true
}

/// Build the stored form of an admin-code table.
fn build_codes(t: &Vec<(String, String, String)>) -> (r: Vec<(CountryCode, String, String)>)
    requires
        codes_valid(t@),
    ensures
        r@.len() == t@.len(),
        forall|i: int|
            0 <= i < t@.len() ==> normalize_cc((#[trigger] t@[i]).0@) == Option::Some(r@[i].0@)
                && r@[i].1@ == t@[i].1@ && r@[i].2@ == t@[i].2@,
{
    let mut r: Vec<(CountryCode, String, String)> = Vec::new();
    let mut i: usize = 0;
    while i < t.len()
        invariant
            codes_valid(t@),
            i <= t@.len(),
            r@.len() == i,
            forall|m: int|
                0 <= m < i ==> normalize_cc((#[trigger] t@[m]).0@) == Option::Some(r@[m].0@)
                    && r@[m].1@ == t@[m].1@ && r@[m].2@ == t@[m].2@,
        decreases t@.len() - i,
    {
        let c = parse_cc_checked(t[i].0.as_str());
        r.push((c, t[i].1.clone(), t[i].2.clone()));
        i += 1;
    }
    r
}

/// A lookup in a table built from a corpus admin-code table follows
/// `codes_model`.
proof fn lemma_codes_equiv(
    built: Seq<(CountryCode, String, String)>,
    input: Seq<(String, String, String)>,
    c: Seq<char>,
    n: Seq<char>,
)
    requires
        built.len() == input.len(),
        forall|i: int|
            0 <= i < built.len() ==> normalize_cc((#[trigger] input[i]).0@) == Option::Some(
                built[i].0@,
            ) && built[i].1@ == input[i].1@ && built[i].2@ == input[i].2@,
    ensures
        code_lookup(built, c, n) == codes_model(input, c, n),
    decreases built.len(),
{
    if built.len() > 0 {
        assert(built.skip(1) =~= built.subrange(1, built.len() as int));
        assert(input.skip(1) =~= input.subrange(1, input.len() as int));
        assert forall|i: int| 0 <= i < built.skip(1).len() implies normalize_cc(
            (#[trigger] input.skip(1)[i]).0@,
        ) == Option::Some(built.skip(1)[i].0@) && built.skip(1)[i].1@ == input.skip(1)[i].1@
            && built.skip(1)[i].2@ == input.skip(1)[i].2@ by {
            assert(built.skip(1)[i] == built[i + 1]);
            assert(input.skip(1)[i] == input[i + 1]);
        }
        lemma_codes_equiv(built.skip(1), input.skip(1), c, n);
    }
}

impl Formatter {
    /// Build the rule store from the loaded corpus: validate every entry,
    /// country code, pattern and template, resolve one-hop country
    /// inheritance, and freeze the result. Fails fast on the first malformed
    /// piece; a `use_country` chain deeper than one hop (or a cycle) fails
    /// the load rather than being chased at lookup time.
    pub fn new(
        default_template: &str,
        fallback_template: &str,
        entries: &Vec<CountryEntry>,
        state_codes: &Vec<(String, String, String)>,
        county_codes: &Vec<(String, String, String)>,
    ) -> (r: Result<Formatter, Error>)
        ensures
            r is Ok <==> corpus_valid(
                default_template@,
                fallback_template@,
                entries@,
                state_codes@,
                county_codes@,
            ),
            r is Ok ==> (r->Ok_0).default_template_text() == default_template@,
            r is Ok ==> (r->Ok_0).fallback_template_text() == fallback_template@,
            r is Ok ==> forall|i: int|
                0 <= i < entries@.len() ==> entry_resolved(&r->Ok_0, entries@, i),
            r is Ok ==> forall|c: Seq<char>, n: Seq<char>|
                (r->Ok_0).state_code_spec(c, n) == codes_model(state_codes@, c, n),
            r is Ok ==> forall|c: Seq<char>, n: Seq<char>|
                (r->Ok_0).county_code_spec(c, n) == codes_model(county_codes@, c, n),
            r is Ok ==> (r->Ok_0).fallback_rules_spec().replace@.len() == 0 && (
            r->Ok_0).fallback_rules_spec().postformat_replace@.len() == 0 && (
            r->Ok_0).fallback_rules_spec().change_country is None && (
            r->Ok_0).fallback_rules_spec().change_country_code is None && (
            r->Ok_0).fallback_rules_spec().add_component is None,
            r is Err ==> r->Err_0 != Error::RenderFailed,
    {
        let n = entries.len();
        if !crate::render::hb_template_parses(default_template) {
            return Result::Err(Error::InvalidTemplate);
        }
        if !crate::render::hb_template_parses(fallback_template) {
            return Result::Err(Error::InvalidTemplate);
        }
        // Every entry must be well-formed on its own.
        let mut i: usize = 0;
        while i < n
            invariant
                n == entries@.len(),
                i <= n,
                forall|j: int| 0 <= j < i ==> entry_valid_local(#[trigger] entries@[j]),
            decreases n - i,
        {
            match check_entry(&entries[i]) {
                Result::Ok(_) => {},
                Result::Err(er) => {
                    return Result::Err(er);
                },
            }
            i += 1;
        }
        // No two entries may name the same country.
        i = 0;
        while i < n
            invariant
                n == entries@.len(),
                i <= n,
                forall|j: int| 0 <= j < n ==> entry_valid_local(#[trigger] entries@[j]),
                forall|a: int, b: int|
                    0 <= a < b < i ==> normalize_cc((#[trigger] entries@[a]).country_code@)
                        != normalize_cc((#[trigger] entries@[b]).country_code@),
            decreases n - i,
        {
            let ci = parse_cc_checked(entries[i].country_code.as_str());
            let mut j: usize = 0;
            while j < i
                invariant
                    n == entries@.len(),
                    i < n,
                    j <= i,
                    ci@ == norm_of(entries@, i as int),
                    forall|k: int| 0 <= k < n ==> entry_valid_local(#[trigger] entries@[k]),
                    forall|m: int|
                        0 <= m < j ==> normalize_cc((#[trigger] entries@[m]).country_code@)
                            != normalize_cc(entries@[i as int].country_code@),
                decreases i - j,
            {
                let cj = parse_cc_checked(entries[j].country_code.as_str());
                if cj.same(&ci) {
                    proof {
                        assert(normalize_cc(entries@[j as int].country_code@) == normalize_cc(
                            entries@[i as int].country_code@,
                        ));
                        assert(!entries_unique(entries@));
                    }
                    return Result::Err(Error::DuplicateCountry);
                }
                j += 1;
            }
            i += 1;
        }
        // Every inherited reference must resolve to a non-inheriting entry.
        i = 0;
        while i < n
            invariant
                n == entries@.len(),
                i <= n,
                forall|j: int| 0 <= j < n ==> entry_valid_local(#[trigger] entries@[j]),
                forall|j: int|
                    0 <= j < i ==> ((#[trigger] entries@[j]).use_country matches Option::Some(p)
                        ==> parent_ok(entries@, normalize_cc(p@)->0)),
            decreases n - i,
        {
            let pstr: Option<String> = match &entries[i].use_country {
                Option::Some(p) => Option::Some(p.clone()),
                Option::None => Option::None,
            };
            match pstr {
                Option::Some(p) => {
                    let pc = parse_cc_checked(p.as_str());
                    if !parent_exists(entries, &pc) {
                        return Result::Err(Error::UnresolvedParentCountry);
                    }
                },
                Option::None => {},
            }
            i += 1;
        }
        // Every code of the admin-area tables must parse.
        if !check_codes(state_codes) {
            return Result::Err(Error::InvalidCountryCode);
        }
        if !check_codes(county_codes) {
            return Result::Err(Error::InvalidCountryCode);
        }
        proof {
            assert(corpus_valid(
                default_template@,
                fallback_template@,
                entries@,
                state_codes@,
                county_codes@,
            ));
        }
        // First build pass: every entry's reduced-detail template, and the
        // templates and rules of the entries that do not inherit.
        let mut tpls: Vec<(CountryCode, Template)> = Vec::new();
        let mut rules_v: Vec<(CountryCode, Rules)> = Vec::new();
        let mut fbs: Vec<(CountryCode, Template)> = Vec::new();
        i = 0;
        while i < n
            invariant
                n == entries@.len(),
                i <= n,
                forall|j: int| 0 <= j < n ==> entry_valid_local(#[trigger] entries@[j]),
                entries_unique(entries@),
                all_norms_ok(entries@),
                forall|j: int| 0 <= j < i ==> fb_fact(fbs@, entries@, j),
                forall|j: int|
                    0 <= j < i && (#[trigger] entries@[j]).use_country is None ==> prim_fact(
                        tpls@,
                        entries@,
                        j,
                    ),
                forall|j: int|
                    0 <= j < i && (#[trigger] entries@[j]).use_country is None ==> rules_fact(
                        rules_v@,
                        entries@,
                        j,
                    ),
                tpl_keys_from(tpls@, entries@, i as int, 0),
                rules_keys_from(rules_v@, entries@, i as int, 0),
                tpl_keys_from(fbs@, entries@, 0, i as int),
                forall|m: int| 0 <= m < rules_v@.len() ==> rules_wf((#[trigger] rules_v@[m]).1),
            decreases n - i,
        {
            proof {
                assert(entry_valid_local(entries@[i as int]));
            }
            let c = parse_cc_checked(entries[i].country_code.as_str());
            match &entries[i].fallback_template {
                Option::Some(ft) => {
                    let ghost fbs0 = fbs@;
                    proof {
                        lemma_fresh_key_tpl(fbs0, entries@, 0, i as int, i as int);
                    }
                    let t = Template::new(ft.as_str());
                    fbs.push((c.duplicate(), t));
                    proof {
                        let x = fbs@[fbs@.len() - 1];
                        assert(fbs@ == fbs0.push(x));
                        assert forall|j: int| 0 <= j < i + 1 implies fb_fact(fbs@, entries@, j) by {
                            lemma_tpl_lookup_push(fbs0, x, norm_of(entries@, j));
                            if j < i {
                                assert(normalize_cc(entries@[j].country_code@) != normalize_cc(
                                    entries@[i as int].country_code@,
                                ));
                                assert(normalize_cc(entries@[j].country_code@) is Some);
                                assert(norm_of(entries@, j) != norm_of(entries@, i as int));
                                assert(fb_fact(fbs0, entries@, j));
                            } else {
                                assert(x.0@ == norm_of(entries@, i as int));
                                assert(tpl_lookup(fbs0, norm_of(entries@, i as int)) is None);
                                assert(tpl_lookup(fbs@, norm_of(entries@, i as int))
                                    == Option::Some(x.1));
                                assert(x.1@ == entries@[i as int].fallback_template->0@);
                            }
                        }
                        assert forall|m: int| #![trigger fbs@[m]] 0 <= m < fbs@.len() implies exists|j: int|
                            0 <= j < entries@.len() && ((j < 0 && (#[trigger] entries@[
                                j
                            ]).use_country is None) || j < i + 1) && fbs@[m].0@ == norm_of(
                            entries@,
                            j,
                        ) by {
                            if m < fbs0.len() {
                                assert(fbs@[m] == fbs0[m]);
                            } else {
                                assert(fbs@[m].0@ == norm_of(entries@, i as int));
                            }
                        }
                    }
                },
                Option::None => {
                    proof {
                        lemma_fresh_key_tpl(fbs@, entries@, 0, i as int, i as int);
                        assert(fb_fact(fbs@, entries@, i as int));
                        assert(tpl_keys_from(fbs@, entries@, 0, i as int + 1));
                    }
                },
            }
            if entries[i].use_country.is_none() {
                let at: &String = match &entries[i].address_template {
                    Option::Some(t) => t,
                    Option::None => vstd::pervasive::unreached(),
                };
                let t = Template::new(at.as_str());
                let rr = match crate::rules::parse_replace_rules(&entries[i].replace) {
                    Result::Ok(v) => v,
                    Result::Err(_) => vstd::pervasive::unreached(),
                };
                let pf = match crate::rules::parse_postformat_rules(&entries[i].postformat_replace)
                {
                    Result::Ok(v) => v,
                    Result::Err(_) => vstd::pervasive::unreached(),
                };
                let new_rules = Rules {
                    replace: rr,
                    postformat_replace: pf,
                    change_country: Option::None,
                    change_country_code: Option::None,
                    add_component: Option::None,
                };
                proof {
                    assert(rules_from_entry(new_rules, entries@[i as int]));
                    assert forall|k: int|
                        0 <= k < new_rules.replace@.len() implies crate::rules::replace_rule_wf(
                        #[trigger] new_rules.replace@[k],
                    ) by {
                        let p0 = entries@[i as int].replace.deep_view()[k].0;
                        assert(crate::rules::pair_ok(
                            p0,
                            entries@[i as int].replace.deep_view()[k].1,
                        ));
                        assert(crate::rules::rule_matches_pair(
                            new_rules.replace@[k],
                            p0,
                            entries@[i as int].replace.deep_view()[k].1,
                        ));
                    }
                    assert(rules_wf(new_rules));
                }
                let ghost tpls0 = tpls@;
                let ghost rules0 = rules_v@;
                proof {
                    lemma_fresh_key_tpl(tpls0, entries@, i as int, 0, i as int);
                    lemma_fresh_key_rules(rules0, entries@, i as int, 0, i as int);
                }
                rules_v.push((c.duplicate(), new_rules));
                tpls.push((c, t));
                proof {
                    let xt = tpls@[tpls@.len() - 1];
                    let xr = rules_v@[rules_v@.len() - 1];
                    assert(tpls@ == tpls0.push(xt));
                    assert(rules_v@ == rules0.push(xr));
                    assert forall|j: int|
                        0 <= j < i + 1 && (#[trigger] entries@[j]).use_country is None implies
                        prim_fact(tpls@, entries@, j) && rules_fact(rules_v@, entries@, j) by {
                        lemma_tpl_lookup_push(tpls0, xt, norm_of(entries@, j));
                        lemma_rules_lookup_push(rules0, xr, norm_of(entries@, j));
                        if j < i {
                            assert(normalize_cc(entries@[j].country_code@) != normalize_cc(
                                entries@[i as int].country_code@,
                            ));
                        }
                    }
                    assert forall|m: int| #![trigger tpls@[m]] 0 <= m < tpls@.len() implies exists|j: int|
                        0 <= j < entries@.len() && ((j < i + 1 && (#[trigger] entries@[
                            j
                        ]).use_country is None) || j < 0) && tpls@[m].0@ == norm_of(
                        entries@,
                        j,
                    ) by {
                        if m < tpls0.len() {
                            assert(tpls@[m] == tpls0[m]);
                        } else {
                            assert(tpls@[m].0@ == norm_of(entries@, i as int));
                        }
                    }
                    assert forall|m: int| #![trigger rules_v@[m]] 0 <= m < rules_v@.len() implies exists|j: int|
                        0 <= j < entries@.len() && ((j < i + 1 && (#[trigger] entries@[
                            j
                        ]).use_country is None) || j < 0) && rules_v@[m].0@ == norm_of(
                        entries@,
                        j,
                    ) by {
                        if m < rules0.len() {
                            assert(rules_v@[m] == rules0[m]);
                        } else {
                            assert(rules_v@[m].0@ == norm_of(entries@, i as int));
                        }
                    }
                }
            }
            i += 1;
        }
        // Second build pass: the inheriting entries copy their parent's
        // resolved template and synthesize their rules.
        i = 0;
        while i < n
            invariant
                n == entries@.len(),
                i <= n,
                forall|j: int| 0 <= j < n ==> entry_valid_local(#[trigger] entries@[j]),
                entries_unique(entries@),
                all_norms_ok(entries@),
                forall|j: int|
                    0 <= j < n ==> ((#[trigger] entries@[j]).use_country matches Option::Some(p)
                        ==> parent_ok(entries@, normalize_cc(p@)->0)),
                forall|j: int| 0 <= j < n ==> fb_fact(fbs@, entries@, j),
                forall|j: int|
                    0 <= j < n && (#[trigger] entries@[j]).use_country is None ==> prim_fact(
                        tpls@,
                        entries@,
                        j,
                    ),
                forall|j: int|
                    0 <= j < n && (#[trigger] entries@[j]).use_country is None ==> rules_fact(
                        rules_v@,
                        entries@,
                        j,
                    ),
                forall|j: int|
                    0 <= j < i && (#[trigger] entries@[j]).use_country is Some ==> inh_tpl_fact(
                        tpls@,
                        entries@,
                        j,
                    ),
                forall|j: int|
                    0 <= j < i && (#[trigger] entries@[j]).use_country is Some ==> inh_rules_fact(
                        rules_v@,
                        entries@,
                        j,
                    ),
                tpl_keys_from(tpls@, entries@, n as int, i as int),
                rules_keys_from(rules_v@, entries@, n as int, i as int),
                forall|m: int| 0 <= m < rules_v@.len() ==> rules_wf((#[trigger] rules_v@[m]).1),
            decreases n - i,
        {
            proof {
                assert(entry_valid_local(entries@[i as int]));
            }
            let pstr: Option<String> = match &entries[i].use_country {
                Option::Some(p) => Option::Some(p.clone()),
                Option::None => Option::None,
            };
            match pstr {
                Option::Some(p) => {
                    let c = parse_cc_checked(entries[i].country_code.as_str());
                    let pc = parse_cc_checked(p.as_str());
                    proof {
                        assert(parent_ok(entries@, pc@));
                        let j0 = choose|j: int|
                            0 <= j < entries@.len() && normalize_cc(
                                (#[trigger] entries@[j]).country_code@,
                            ) == Option::Some(pc@) && entries@[j].use_country is None;
                        assert(prim_fact(tpls@, entries@, j0));
                        assert(norm_of(entries@, j0) == pc@);
                        assert(tpls@.skip(0) =~= tpls@);
                    }
                    let pt_copy: Template = match tpl_find(&tpls, 0, pc.as_str()) {
                        Option::Some(pt) => pt.duplicate(),
                        Option::None => vstd::pervasive::unreached(),
                    };
                    let nc: Option<NewComponent> = match &entries[i].add_component {
                        Option::Some(acs) => {
                            let v = str_to_chars(acs.as_str());
                            let mut eq: Vec<char> = Vec::new();
                            eq.push('=');
                            proof {
                                assert(eq@ =~= seq!['=']);
                            }
                            let parts = crate::textutil::split_sub_exec(&v, &eq);
                            proof {
                                broadcast use crate::textutil::lemma_chars_deep_view;

                                assert(parts@.len() == parts.deep_view().len());
                                assert(parts.deep_view()[1] == parts@[1]@);
                            }
                            if parts.len() != 2 {
                                vstd::pervasive::unreached()
                            } else {
                                Option::Some(
                                    NewComponent {
                                        component: Component::State,
                                        new_value: chars_to_string(&parts[1]),
                                    },
                                )
                            }
                        },
                        Option::None => Option::None,
                    };
                    let new_rules = Rules {
                        replace: Vec::new(),
                        postformat_replace: Vec::new(),
                        change_country: match &entries[i].change_country {
                            Option::Some(s) => Option::Some(s.clone()),
                            Option::None => Option::None,
                        },
                        change_country_code: Option::Some(String::from_str(pc.as_str())),
                        add_component: nc,
                    };
                    proof {
                        assert(inherited_rules_from(new_rules, entries@[i as int], pc@));
                        assert(rules_wf(new_rules));
                    }
                    let ghost tpls0 = tpls@;
                    let ghost rules0 = rules_v@;
                    proof {
                        lemma_fresh_key_tpl(tpls0, entries@, n as int, i as int, i as int);
                        lemma_fresh_key_rules(rules0, entries@, n as int, i as int, i as int);
                    }
                    rules_v.push((c.duplicate(), new_rules));
                    tpls.push((c, pt_copy));
                    proof {
                        let xt = tpls@[tpls@.len() - 1];
                        let xr = rules_v@[rules_v@.len() - 1];
                        assert(tpls@ == tpls0.push(xt));
                        assert(rules_v@ == rules0.push(xr));
                        assert(parent_norm_of(entries@, i as int) == pc@);
                        assert forall|j: int| 0 <= j < n implies (fb_fact(fbs@, entries@, j)
                            && ((#[trigger] entries@[j]).use_country is None ==> prim_fact(
                            tpls@,
                            entries@,
                            j,
                        ) && rules_fact(rules_v@, entries@, j))) by {
                            lemma_tpl_lookup_push(tpls0, xt, norm_of(entries@, j));
                            lemma_rules_lookup_push(rules0, xr, norm_of(entries@, j));
                        }
                        assert forall|j: int|
                            0 <= j < i + 1 && (#[trigger] entries@[j]).use_country is Some implies
                            inh_tpl_fact(tpls@, entries@, j) && inh_rules_fact(
                            rules_v@,
                            entries@,
                            j,
                        ) by {
                            lemma_tpl_lookup_push(tpls0, xt, norm_of(entries@, j));
                            lemma_tpl_lookup_push(tpls0, xt, parent_norm_of(entries@, j));
                            lemma_rules_lookup_push(rules0, xr, norm_of(entries@, j));
                            if j < i {
                                assert(inh_tpl_fact(tpls0, entries@, j));
                                assert(inh_rules_fact(rules0, entries@, j));
                            } else {
                                assert(parent_ok(entries@, pc@));
                                let j0 = choose|j0: int|
                                    0 <= j0 < entries@.len() && normalize_cc(
                                        (#[trigger] entries@[j0]).country_code@,
                                    ) == Option::Some(pc@) && entries@[j0].use_country is None;
                                assert(prim_fact(tpls0, entries@, j0));
                                assert(norm_of(entries@, j0) == pc@);
                                lemma_tpl_lookup_push(tpls0, xt, pc@);
                            }
                        }
                        assert forall|m: int| #![trigger tpls@[m]] 0 <= m < tpls@.len() implies exists|j: int|
                            0 <= j < entries@.len() && ((j < n && (#[trigger] entries@[
                                j
                            ]).use_country is None) || j < i + 1) && tpls@[m].0@ == norm_of(
                            entries@,
                            j,
                        ) by {
                            if m < tpls0.len() {
                                assert(tpls@[m] == tpls0[m]);
                            } else {
                                assert(tpls@[m].0@ == norm_of(entries@, i as int));
                            }
                        }
                        assert forall|m: int| #![trigger rules_v@[m]] 0 <= m < rules_v@.len() implies exists|j: int|
                            0 <= j < entries@.len() && ((j < n && (#[trigger] entries@[
                                j
                            ]).use_country is None) || j < i + 1) && rules_v@[m].0@ == norm_of(
                            entries@,
                            j,
                        ) by {
                            if m < rules0.len() {
                                assert(rules_v@[m] == rules0[m]);
                            } else {
                                assert(rules_v@[m].0@ == norm_of(entries@, i as int));
                            }
                        }
                    }
                },
                Option::None => {},
            }
            i += 1;
        }
        let f = Formatter {
            default_template: Template::new(default_template),
            fallback_template: Template::new(fallback_template),
            templates_by_country: tpls,
            fallback_templates_by_country: fbs,
            rules_by_country: rules_v,
            fallback_rules: Rules::empty(),
            state_codes: build_codes(state_codes),
            county_codes: build_codes(county_codes),
        };
        proof {
            assert forall|j: int| 0 <= j < entries@.len() implies entry_resolved(
                &f,
                entries@,
                j,
            ) by {
                assert(entry_valid_local(entries@[j]));
                assert(fb_fact(f.fallback_templates_by_country@, entries@, j));
                if entries@[j].use_country is None {
                    assert(prim_fact(f.templates_by_country@, entries@, j));
                    assert(rules_fact(f.rules_by_country@, entries@, j));
                } else {
                    assert(inh_tpl_fact(f.templates_by_country@, entries@, j));
                    assert(inh_rules_fact(f.rules_by_country@, entries@, j));
                }
            }
            assert forall|c: Seq<char>, nm: Seq<char>| #[trigger] f.state_code_spec(c, nm)
                == codes_model(state_codes@, c, nm) by {
                lemma_codes_equiv(f.state_codes@, state_codes@, c, nm);
            }
            assert forall|c: Seq<char>, nm: Seq<char>| #[trigger] f.county_code_spec(c, nm)
                == codes_model(county_codes@, c, nm) by {
                lemma_codes_equiv(f.county_codes@, county_codes@, c, nm);
            }
        }
        Result::Ok(f)
    }
}

} // verus!
