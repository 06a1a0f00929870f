use crate::error::Error;
use crate::place::Component;
use crate::render::hb_template_ok;
use crate::render::hb_template_parses;
use crate::rx::regex_ok;
use crate::rx::rx_is_valid;
use crate::textutil::first_sub;
use crate::textutil::first_sub_exec;
use crate::textutil::split_sub;
use crate::textutil::split_sub_exec;
use crate::textutil::str_to_chars;
use crate::textutil::chars_to_string;
use crate::textutil::lemma_chars_deep_view;
use vstd::prelude::*;

verus! {

/// A compiled-pattern replacement: a regular expression and the value that
/// replaces what it matches.
#[derive(Debug)]
pub struct Replacement {
    /// The regular expression, kept as its pattern text.
    pub pattern: String,
    /// The replacement value; `$` group references are expanded.
    pub replacement_value: String,
}

/// A pre-render replacement applies either to every non-empty field or to
/// one named field.
#[derive(Debug)]
pub enum ReplaceRule {
    /// Applies to every field.
    All(Replacement),
    /// Applies to one component's field only.
    Component(Component, Replacement),
}

/// A component forced to a literal value before rendering.
#[derive(Debug)]
pub struct NewComponent {
    /// The component to set.
    pub component: Component,
    /// The literal value it takes.
    pub new_value: String,
}

/// The transformations tied to one country (or to the global fallback):
/// pre-render field replacements, whole-text post-render replacements, and
/// the forced country fields of synthesized inheritance rules.
#[derive(Debug)]
pub struct Rules {
    /// Pre-render replacements, applied in order; each replaces the first
    /// match only.
    pub replace: Vec<ReplaceRule>,
    /// Post-render replacements, applied in order to the whole rendered
    /// text; each replaces all matches.
    pub postformat_replace: Vec<Replacement>,
    /// A literal country name to force.
    pub change_country: Option<String>,
    /// A literal country code to force.
    pub change_country_code: Option<String>,
    /// A component forced to a literal value.
    pub add_component: Option<NewComponent>,
}

/// A replacement is well-formed when its pattern compiles.
pub open spec fn replacement_wf(r: Replacement) -> bool {
    regex_ok(r.pattern@)
}

/// Rule well-formedness: the pattern compiles whatever the scope.
pub open spec fn replace_rule_wf(r: ReplaceRule) -> bool {
    match r {
        ReplaceRule::All(rep) => replacement_wf(rep),
        ReplaceRule::Component(_, rep) => replacement_wf(rep),
    }
}

/// A rule set is well-formed when every pattern in it compiles.
pub open spec fn rules_wf(rs: Rules) -> bool {
    &&& forall|i: int| 0 <= i < rs.replace@.len() ==> replace_rule_wf(#[trigger] rs.replace@[i])
    &&& forall|i: int|
        0 <= i < rs.postformat_replace@.len() ==> replacement_wf(
            #[trigger] rs.postformat_replace@[i],
        )
}

impl Rules {
    /// A rule set that does nothing: the global fallback.
    pub fn empty() -> (r: Rules)
        ensures
            r.replace@.len() == 0,
            r.postformat_replace@.len() == 0,
            r.change_country is None,
            r.change_country_code is None,
            r.add_component is None,
            rules_wf(r),
    {
        Rules {
            replace: Vec::new(),
            postformat_replace: Vec::new(),
            change_country: Option::None,
            change_country_code: Option::None,
            add_component: Option::None,
        }
    }
}

/// A corpus pattern scopes to one component when it holds an `=`.
pub open spec fn pair_scoped(p: Seq<char>) -> bool {
    first_sub(p, seq!['=']) < p.len()
}

/// What one corpus replace pair parses to, when it parses.
pub open spec fn rule_matches_pair(rule: ReplaceRule, p: Seq<char>, v: Seq<char>) -> bool {
    if pair_scoped(p) {
        {
            let parts = split_sub(p, seq!['=']);
            &&& rule matches ReplaceRule::Component(c, rep) && Option::Some(c)
                == Component::from_name_spec(parts[0]) && rep.pattern@ == parts[1]
                && rep.replacement_value@ == v
        }
    } else {
        rule matches ReplaceRule::All(rep) && rep.pattern@ == p && rep.replacement_value@ == v
    }
}

/// Whether one corpus replace pair parses: a scoped pattern must name a real
/// component, and the pattern part must compile.
pub open spec fn pair_ok(p: Seq<char>, v: Seq<char>) -> bool {
    if pair_scoped(p) {
        {
            let parts = split_sub(p, seq!['=']);
            &&& Component::from_name_spec(parts[0]) is Some
            &&& parts.len() >= 2
            &&& regex_ok(parts[1])
        }
    } else {
        regex_ok(p)
    }
}

/// Whether a whole corpus replace list parses.
pub open spec fn pairs_ok(pairs: Seq<(Seq<char>, Seq<char>)>) -> bool {
    forall|i: int| 0 <= i < pairs.len() ==> pair_ok(pairs[i].0, pairs[i].1)
}

/// Parse the replace list of one corpus entry: each pair is a pattern and a
/// replacement value, and a pattern of the shape `component=pattern` scopes
/// the rule to that component. Fails when a scoped pattern names no real
/// component or a pattern does not compile.
pub fn parse_replace_rules(pairs: &Vec<(String, String)>) -> (r: Result<Vec<ReplaceRule>, Error>)
    ensures
        r is Ok <==> pairs_ok(pairs.deep_view()),
        r is Ok ==> r->Ok_0@.len() == pairs@.len(),
        r is Ok ==> forall|i: int|
            0 <= i < pairs@.len() ==> rule_matches_pair(
                #[trigger] r->Ok_0@[i],
                pairs.deep_view()[i].0,
                pairs.deep_view()[i].1,
            ),
        r is Err ==> (r->Err_0 == Error::InvalidReplaceRule || r->Err_0 == Error::InvalidRegex),
{
    let mut out: Vec<ReplaceRule> = Vec::new();
    let mut i: usize = 0;
    let mut eq: Vec<char> = Vec::new();
    eq.push('=');
    proof {
        assert(eq@ =~= seq!['=']);
    }
    while i < pairs.len()
        invariant
            i <= pairs@.len(),
            out@.len() == i,
            eq@ == seq!['='],
            forall|j: int| 0 <= j < i ==> pair_ok(pairs.deep_view()[j].0, pairs.deep_view()[j].1),
            forall|j: int|
                0 <= j < i ==> rule_matches_pair(
                    #[trigger] out@[j],
                    pairs.deep_view()[j].0,
                    pairs.deep_view()[j].1,
                ),
        decreases pairs@.len() - i,
    {
        broadcast use lemma_chars_deep_view;

        let p = &pairs[i];
        let pv = str_to_chars(p.0.as_str());
        proof {
            assert(pairs.deep_view()[i as int].0 == pairs@[i as int].0@);
            assert(pairs.deep_view()[i as int].1 == pairs@[i as int].1@);
        }
        let k = first_sub_exec(&pv, &eq);
        if k < pv.len() {
            let parts = split_sub_exec(&pv, &eq);
            proof {
                assert(parts.deep_view() == split_sub(p.0@, seq!['=']));
                assert(parts@.len() == parts.deep_view().len());
            }
            if parts.len() < 2 {
                // A scoped pattern always splits in at least two parts.
                proof {
                    assert(false) by {
                        crate::textutil::lemma_first_sub(p.0@, seq!['=']);
                        crate::textutil::lemma_split_sub_len(
                            p.0@.skip(first_sub(p.0@, seq!['=']) as int + 1),
                            seq!['='],
                        );
                        assert(first_sub(p.0@, seq!['=']) + 1 <= p.0@.len());
                        assert(split_sub(p.0@, seq!['=']).len() >= 2);
                    }
                }
                return Result::Err(Error::InvalidReplaceRule);
            }
            let name = chars_to_string(&parts[0]);
            let comp = match Component::from_name(name.as_str()) {
                Option::Some(c) => c,
                Option::None => {
                    return Result::Err(Error::InvalidReplaceRule);
                },
            };
            let pattern = chars_to_string(&parts[1]);
            if !rx_is_valid(pattern.as_str()) {
                return Result::Err(Error::InvalidRegex);
            }
            proof {
                assert(parts.deep_view()[0] == parts@[0]@);
                assert(parts.deep_view()[1] == parts@[1]@);
            }
            out.push(
                ReplaceRule::Component(
                    comp,
                    Replacement { pattern, replacement_value: p.1.clone() },
                ),
            );
        } else {
            if !rx_is_valid(p.0.as_str()) {
                return Result::Err(Error::InvalidRegex);
            }
            out.push(
                ReplaceRule::All(
                    Replacement { pattern: p.0.clone(), replacement_value: p.1.clone() },
                ),
            );
        }
        i += 1;
    }
    Result::Ok(out)
}

/// Whether a corpus post-render replace list parses: every pattern must be
/// unscoped (those rules act on the whole text) and compile.
pub open spec fn postformat_pairs_ok(pairs: Seq<(Seq<char>, Seq<char>)>) -> bool {
    forall|i: int|
        0 <= i < pairs.len() ==> !pair_scoped(#[trigger] pairs[i].0) && regex_ok(pairs[i].0)
}

/// Parse the post-render replace list of one corpus entry. A
/// component-scoped pattern is rejected: post-render rules act on the whole
/// text only.
pub fn parse_postformat_rules(pairs: &Vec<(String, String)>) -> (r: Result<Vec<Replacement>, Error>)
    ensures
        r is Ok <==> postformat_pairs_ok(pairs.deep_view()),
        r is Ok ==> r->Ok_0@.len() == pairs@.len(),
        r is Ok ==> forall|i: int|
            0 <= i < pairs@.len() ==> (#[trigger] r->Ok_0@[i]).pattern@ == pairs.deep_view()[i].0
                && r->Ok_0@[i].replacement_value@ == pairs.deep_view()[i].1,
        r is Err ==> (r->Err_0 == Error::ScopedPostformatRule || r->Err_0 == Error::InvalidRegex),
{
    let mut out: Vec<Replacement> = Vec::new();
    let mut i: usize = 0;
    let mut eq: Vec<char> = Vec::new();
    eq.push('=');
    proof {
        assert(eq@ =~= seq!['=']);
    }
    while i < pairs.len()
        invariant
            i <= pairs@.len(),
            out@.len() == i,
            eq@ == seq!['='],
            forall|j: int|
                0 <= j < i ==> !pair_scoped(#[trigger] pairs.deep_view()[j].0) && regex_ok(
                    pairs.deep_view()[j].0,
                ),
            forall|j: int|
                0 <= j < i ==> (#[trigger] out@[j]).pattern@ == pairs.deep_view()[j].0
                    && out@[j].replacement_value@ == pairs.deep_view()[j].1,
        decreases pairs@.len() - i,
    {
        let p = &pairs[i];
        let pv = str_to_chars(p.0.as_str());
        proof {
            assert(pairs.deep_view()[i as int].0 == pairs@[i as int].0@);
            assert(pairs.deep_view()[i as int].1 == pairs@[i as int].1@);
        }
        let k = first_sub_exec(&pv, &eq);
        if k < pv.len() {
            return Result::Err(Error::ScopedPostformatRule);
        }
        if !rx_is_valid(p.0.as_str()) {
            return Result::Err(Error::InvalidRegex);
        }
        out.push(Replacement { pattern: p.0.clone(), replacement_value: p.1.clone() });
        i += 1;
    }
    Result::Ok(out)
}

/// A compiled template: its text, validated against the template engine at
/// construction.
#[derive(Debug)]
pub struct Template {
    text: String,
}

impl View for Template {
    type V = Seq<char>;

    closed spec fn view(&self) -> Seq<char> {
        self.text@
    }
}

impl Template {
    #[verifier::type_invariant]
    spec fn inv(self) -> bool {
        hb_template_ok(self.text@)
    }

    /// Wrap a template text that is known to parse.
    pub fn new(place_template: &str) -> (r: Template)
        requires
            hb_template_ok(place_template@),
        ensures
            r@ == place_template@,
    {
        Template { text: String::from_str(place_template) }
    }

    /// Validate a template text against the engine and wrap it; `None` when
    /// it does not parse.
    pub fn try_new(place_template: &str) -> (r: Option<Template>)
        ensures
            r is Some <==> hb_template_ok(place_template@),
            r is Some ==> r->0@ == place_template@,
    {
        if hb_template_parses(place_template) {
            Option::Some(Template::new(place_template))
        } else {
            Option::None
        }
    }

    /// The template text.
    pub fn text(&self) -> (r: &str)
        ensures
            r@ == self@,
    {
        self.text.as_str()
    }

    /// A copy of this template.
    pub fn duplicate(&self) -> (r: Template)
        ensures
            r@ == self@,
    {
        proof {
            use_type_invariant(self);
        }
        Template { text: self.text.clone() }
    }
}

} // verus!
