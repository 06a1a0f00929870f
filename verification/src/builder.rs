use crate::formatter::is_digit;
use crate::formatter::PlaceView;
use crate::place::Component;
use crate::place::Place;
use crate::place::NUM_COMPONENTS;
use crate::textutil::join_from;
use crate::textutil::join_seqs;
use crate::textutil::lemma_chars_deep_view;
use crate::textutil::str_eq;
use crate::textutil::str_to_chars;
use crate::textutil::chars_to_string;
use vstd::prelude::*;

verus! {

/// The digits of an integer-shaped value: everything after an optional
/// leading plus sign.
pub open spec fn integer_body(s: Seq<char>) -> Seq<char> {
    if s.len() > 0 && s[0] == '+' {
        s.skip(1)
    } else {
        s
    }
}

/// A value that reads as an integer: an optional leading plus sign, then
/// digits only, at least one.
pub open spec fn is_integer_string(s: Seq<char>) -> bool {
    integer_body(s).len() > 0 && forall|i: int|
        0 <= i < integer_body(s).len() ==> is_digit(#[trigger] integer_body(s)[i])
}

/// Executable `is_integer_string`.
fn is_integer_exec(s: &str) -> (r: bool)
    ensures
        r == is_integer_string(s@),
{
    let v = str_to_chars(s);
    let start: usize = if v.len() > 0 && v[0] == '+' {
        1
    } else {
        0
    };
    proof {
        if start == 1 {
            assert(v@.skip(1).len() == v@.len() - 1);
        }
    }
    if v.len() == start {
        return false;
    }
    let mut i: usize = start;
    while i < v.len()
        invariant
            v@ == s@,
            start <= 1,
            start <= i <= v@.len(),
            (start == 1) == (v@.len() > 0 && v@[0] == '+'),
            forall|j: int| start <= j < i ==> is_digit(#[trigger] v@[j]),
        decreases v@.len() - i,
    {
        if !('0' <= v[i] && v[i] <= '9') {
            proof {
                assert(integer_body(s@)[i - start] == v@[i as int]);
                assert(!is_digit(integer_body(s@)[i - start]));
                assert(!is_integer_string(s@));
            }
            return false;
        }
        i += 1;
    }
    proof {
        assert forall|j: int| 0 <= j < integer_body(s@).len() implies is_digit(
            #[trigger] integer_body(s@)[j],
        ) by {
            if start == 1 {
                assert(integer_body(s@)[j] == v@[j + 1]);
            } else {
                assert(integer_body(s@)[j] == v@[j]);
            }
        }
    }
    true
}

/// The position of the first pair whose key is `k`; the length if none.
pub open spec fn key_index(u: Seq<(Seq<char>, Seq<char>)>, k: Seq<char>) -> nat
    decreases u.len(),
{
    if u.len() == 0 {
        0
    } else if u[0].0 == k {
        0
    } else {
        1 + key_index(u.skip(1), k)
    }
}

proof fn lemma_key_index_le(u: Seq<(Seq<char>, Seq<char>)>, k: Seq<char>)
    ensures
        key_index(u, k) <= u.len(),
    decreases u.len(),
{
    if u.len() > 0 && !(u[0].0 == k) {
        lemma_key_index_le(u.skip(1), k);
    }
}

/// Executable `key_index`.
fn find_key(u: &Vec<(String, String)>, k: &str) -> (r: usize)
    ensures
        r == key_index(u.deep_view(), k@),
        r <= u@.len(),
    decreases u@.len(),
{
    proof {
        lemma_key_index_le(u.deep_view(), k@);
        assert(u.deep_view().len() == u@.len());
        assert(u.deep_view().skip(0) =~= u.deep_view());
    }
    let mut i: usize = 0;
    while i < u.len()
        invariant
            i <= u@.len(),
            u.deep_view().len() == u@.len(),
            key_index(u.deep_view(), k@) <= u@.len(),
            key_index(u.deep_view(), k@) == i + key_index(u.deep_view().skip(i as int), k@),
        decreases u@.len() - i,
    {
        if str_eq(u[i].0.as_str(), k) {
            proof {
                assert(u.deep_view().skip(i as int)[0] == u.deep_view()[i as int]);
                assert(key_index(u.deep_view().skip(i as int), k@) == 0);
            }
            return i;
        }
        proof {
            assert(u.deep_view().skip(i as int)[0] == u.deep_view()[i as int]);
            assert(u.deep_view().skip(i as int).skip(1) =~= u.deep_view().skip(i as int + 1));
        }
        i += 1;
    }
    proof {
        assert(u.deep_view().skip(i as int).len() == 0);
    }
    i
}

/// One key-value pair folded into the unknown-keys list: the value of an
/// existing key is replaced in place, a new key is appended.
pub open spec fn upsert(
    u: Seq<(Seq<char>, Seq<char>)>,
    k: Seq<char>,
    v: Seq<char>,
) -> Seq<(Seq<char>, Seq<char>)> {
    let j = key_index(u, k) as int;
    if j < u.len() {
        u.update(j, (k, v))
    } else {
        u.push((k, v))
    }
}

/// The first pass of the builder: every pair whose key names a component
/// sets that component; the rest collects into the unknown-keys list, in
/// input order.
pub open spec fn phase_known(
    vals: Seq<(Seq<char>, Seq<char>)>,
    i: int,
    a: PlaceView,
    unknown: Seq<(Seq<char>, Seq<char>)>,
) -> (PlaceView, Seq<(Seq<char>, Seq<char>)>)
    decreases vals.len() - i,
{
    if i < 0 || i >= vals.len() {
        (a, unknown)
    } else {
        match Component::from_name_spec(vals[i].0) {
            Option::Some(c) => phase_known(
                vals,
                i + 1,
                a.update(c.as_index(), Option::Some(vals[i].1)),
                unknown,
            ),
            Option::None => phase_known(vals, i + 1, a, upsert(unknown, vals[i].0, vals[i].1)),
        }
    }
}

/// The alias pass: walking the alias table in order, an unknown key equal to
/// an alias is consumed, and sets the alias's component if that component is
/// still unset.
pub open spec fn phase_alias(
    tbl: Seq<(Component, Vec<String>)>,
    ti: int,
    ai: int,
    a: PlaceView,
    unknown: Seq<(Seq<char>, Seq<char>)>,
) -> (PlaceView, Seq<(Seq<char>, Seq<char>)>)
    decreases tbl.len() - ti, (if 0 <= ti < tbl.len() { tbl[ti].1@.len() + 1 - ai } else { 0 }),
    when ai >= 0
{
    if ti < 0 || ti >= tbl.len() {
        (a, unknown)
    } else if ai >= tbl[ti].1@.len() {
        phase_alias(tbl, ti + 1, 0, a, unknown)
    } else {
        let alias = tbl[ti].1@[ai]@;
        let j = key_index(unknown, alias) as int;
        if j < unknown.len() {
            let val = unknown[j].1;
            let u2 = unknown.remove(j);
            let a2 = if a[tbl[ti].0.as_index()] is None {
                a.update(tbl[ti].0.as_index(), Option::Some(val))
            } else {
                a
            };
            phase_alias(tbl, ti, ai + 1, a2, u2)
        } else {
            phase_alias(tbl, ti, ai + 1, a, unknown)
        }
    }
}

/// The leftover pass: the values of the keys nothing consumed, joined with
/// ", " into the attention field.
pub open spec fn phase_leftover(a: PlaceView, unknown: Seq<(Seq<char>, Seq<char>)>) -> PlaceView {
    a.update(
        Component::Attention.as_index(),
        Option::Some(
            join_seqs(unknown.map_values(|p: (Seq<char>, Seq<char>)| p.1), seq![',', ' ']),
        ),
    )
}

/// The country fix-up: a country field that reads as a plain integer while
/// the state field is set is malformed upstream data; the state value is the
/// real country name, so it moves there and the state clears.
pub open spec fn phase_country_fix(a: PlaceView) -> PlaceView {
    if a[Component::State.as_index()] is Some && (a[Component::Country.as_index()] matches
        Option::Some(country) && is_integer_string(country)) {
        a.update(
            Component::Country.as_index(),
            a[Component::State.as_index()],
        ).update(Component::State.as_index(), Option::None)
    } else {
        a
    }
}

/// What `build_place` yields from an alias table and a key-value list.
pub open spec fn build_place_spec(
    tbl: Seq<(Component, Vec<String>)>,
    vals: Seq<(Seq<char>, Seq<char>)>,
) -> PlaceView {
    let empty = Seq::new(NUM_COMPONENTS as nat, |i: int| Option::<Seq<char>>::None);
    let p1 = phase_known(vals, 0, empty, Seq::empty());
    let p2 = if p1.1.len() > 0 {
        let q = phase_alias(tbl, 0, 0, p1.0, p1.1);
        phase_leftover(q.0, q.1)
    } else {
        p1.0
    };
    phase_country_fix(p2)
}

/// Builds a [`Place`] from a less structured input: known keys map straight
/// to components, unknown keys go through the alias table, and whatever is
/// left lands in the attention field.
pub struct PlaceBuilder {
    component_aliases: Vec<(Component, Vec<String>)>,
}

impl PlaceBuilder {
    /// The alias table, as handed to `new`.
    pub closed spec fn aliases(&self) -> Seq<(Component, Vec<String>)> {
        self.component_aliases@
    }

    /// A builder over an alias table: for each component, the input key
    /// names that may stand for it, in the order they should be tried.
    pub fn new(component_aliases: Vec<(Component, Vec<String>)>) -> (r: PlaceBuilder)
        ensures
            r.aliases() == component_aliases@,
    {
        PlaceBuilder { component_aliases }
    }

    /// Executable `phase_alias`.
    fn run_aliases(&self, ti: usize, ai: usize, place: &mut Place, unknown: &mut Vec<(String, String)>)
        requires
            ti <= self.aliases().len(),
            ti < self.aliases().len() ==> ai <= self.aliases()[ti as int].1@.len(),
            ti == self.aliases().len() ==> ai == 0,
        ensures
            (final(place)@, final(unknown).deep_view()) == phase_alias(
                self.aliases(),
                ti as int,
                ai as int,
                old(place)@,
                old(unknown).deep_view(),
            ),
        decreases self.aliases().len() - ti, (if ti < self.aliases().len() {
            self.aliases()[ti as int].1@.len() + 1 - ai
        } else {
            0
        }),
    {
        if ti == self.component_aliases.len() {
            return ;
        }
        let row = &self.component_aliases[ti];
        if ai == row.1.len() {
            self.run_aliases(ti + 1, 0, place, unknown);
            return ;
        }
        let alias: &String = &row.1[ai];
        let j = find_key(unknown, alias.as_str());
        if j < unknown.len() {
            let pair = unknown.remove(j);
            proof {
                assert(unknown.deep_view() =~= old(unknown).deep_view().remove(j as int));
                assert(pair.1@ == old(unknown).deep_view()[j as int].1);
            }
            if place.get(row.0).is_none() {
                place.set(row.0, Option::Some(pair.1));
            }
            self.run_aliases(ti, ai + 1, place, unknown);
        } else {
            self.run_aliases(ti, ai + 1, place, unknown);
        }
    }

    /// Build a place from a list of raw key-value pairs.
    pub fn build_place(&self, values: &Vec<(String, String)>) -> (r: Place)
        ensures
            r@ == build_place_spec(self.aliases(), values.deep_view()),
    {
        let mut place = Place::new();
        let mut unknown: Vec<(String, String)> = Vec::new();
        let ghost vals = values.deep_view();
        proof {
            assert(unknown.deep_view() =~= Seq::<(Seq<char>, Seq<char>)>::empty());
            assert(vals.len() == values@.len());
        }
        let mut i: usize = 0;
        while i < values.len()
            invariant
                i <= values@.len(),
                vals == values.deep_view(),
                vals.len() == values@.len(),
                place@.len() == NUM_COMPONENTS,
                phase_known(vals, 0, Seq::new(NUM_COMPONENTS as nat, |k: int| Option::<Seq<char>>::None), Seq::empty())
                    == phase_known(vals, i as int, place@, unknown.deep_view()),
            decreases values@.len() - i,
        {
            let k = &values[i].0;
            let v = values[i].1.clone();
            proof {
                assert(vals[i as int].0 == values@[i as int].0@);
                assert(vals[i as int].1 == values@[i as int].1@);
            }
            match Component::from_name(k.as_str()) {
                Option::Some(c) => {
                    place.set(c, Option::Some(v));
                },
                Option::None => {
                    let ghost u0 = unknown.deep_view();
                    let j = find_key(&unknown, k.as_str());
                    if j < unknown.len() {
                        unknown[j] = (k.clone(), v);
                        proof {
                            assert(unknown.deep_view() =~= u0.update(
                                j as int,
                                (vals[i as int].0, vals[i as int].1),
                            ));
                        }
                    } else {
                        unknown.push((k.clone(), v));
                        proof {
                            assert(unknown.deep_view() =~= u0.push(
                                (vals[i as int].0, vals[i as int].1),
                            ));
                        }
                    }
                    proof {
                        assert(unknown.deep_view() == upsert(u0, vals[i as int].0, vals[i as int].1));
                    }
                },
            }
            i += 1;
        }
        proof {
            assert(phase_known(vals, i as int, place@, unknown.deep_view()) == (
                place@,
                unknown.deep_view(),
            ));
        }
        if unknown.len() > 0 {
            self.run_aliases(0, 0, &mut place, &mut unknown);
            let mut vals_only: Vec<Vec<char>> = Vec::new();
            let mut m: usize = 0;
            while m < unknown.len()
                invariant
                    m <= unknown@.len(),
                    vals_only@.len() == m,
                    forall|q: int|
                        0 <= q < m ==> #[trigger] vals_only.deep_view()[q] == unknown.deep_view()[
                            q
                        ].1,
                decreases unknown@.len() - m,
            {
                let ghost v0 = vals_only;
                vals_only.push(str_to_chars(unknown[m].1.as_str()));
                m += 1;
                proof {
                    broadcast use lemma_chars_deep_view;

                    assert forall|q: int| 0 <= q < m implies #[trigger] vals_only.deep_view()[q]
                        == unknown.deep_view()[q].1 by {
                        if q < m - 1 {
                            assert(vals_only@[q] == v0@[q]);
                            assert(vals_only.deep_view()[q] == v0.deep_view()[q]);
                        } else {
                            assert(vals_only.deep_view()[q] == vals_only@[q]@);
                        }
                    }
                }
            }
            let mut sep: Vec<char> = Vec::new();
            sep.push(',');
            sep.push(' ');
            proof {
                assert(sep@ =~= seq![',', ' ']);
                assert(vals_only.deep_view() =~= unknown.deep_view().map_values(
                    |p: (Seq<char>, Seq<char>)| p.1,
                ));
            }
            let joined = join_from(&vals_only, &sep, 0);
            proof {
                assert(vals_only.deep_view().skip(0) =~= vals_only.deep_view());
            }
            place.set(Component::Attention, Option::Some(chars_to_string(&joined)));
        }
        let ghost before_fix = place@;
        let fix = match place.get(Component::Country) {
            Option::Some(country) => {
                place.get(Component::State).is_some() && is_integer_exec(country.as_str())
            },
            Option::None => false,
        };
        if fix {
            let state = match place.get(Component::State) {
                Option::Some(s) => Option::Some(s.clone()),
                Option::None => Option::None,
            };
            place.set(Component::Country, state);
            place.set(Component::State, Option::None);
        }
        proof {
            assert(place@ =~= phase_country_fix(before_fix));
        }
        place
    }
}

} // verus!
