use crate::error::Error;
use crate::textutil::chars_to_string;
use crate::textutil::first_sub;
use crate::textutil::first_sub_exec;
use crate::textutil::lemma_chars_deep_view;
use crate::textutil::lemma_first_sub;
use crate::textutil::split_sub;
use crate::textutil::split_sub_exec;
use crate::textutil::str_to_chars;
use crate::textutil::trim_parts;
use crate::textutil::trim_seq;
use crate::textutil::vec_slice;
use vstd::prelude::*;

verus! {

// Rendering hands the selected template text and the address fields to the
// handlebars engine. The engine's substitution is a function of the template
// and the data alone, so its result gets a name that the formatting
// contracts use. The one custom primitive of the template language, the
// "first non-empty" block, is implemented here as a verified pure function:
// a block's body is rendered on its own and reduced by `first_non_empty`.

/// Whether a template text parses (the outcome of
/// `handlebars::Handlebars::register_template_string` on it).
pub uninterp spec fn hb_template_ok(t: Seq<char>) -> bool;

/// What `handlebars::Handlebars::render_template` produces from a template
/// text and a set of field values: `None` when rendering fails, the rendered
/// text otherwise.
pub uninterp spec fn hb_render_of(
    t: Seq<char>,
    pairs: Seq<(Seq<char>, Seq<char>)>,
) -> Option<Seq<char>>;

/// Relies on handlebars Registry::register_template_string: parsing succeeds
/// or fails on the template text alone.
#[verifier::external_body]
pub(crate) fn hb_template_parses(template: &str) -> (r: bool)
    ensures
        r == hb_template_ok(template@),
{
    handlebars::Handlebars::new().register_template_string("addr", template).is_ok()
}

/// Relies on handlebars Registry::render_template: it substitutes the data
/// values for the template's variable references; the result depends on the
/// template text and the data alone, and a missing variable renders as the
/// empty string.
#[verifier::external_body]
fn hb_render(template: &str, pairs: &Vec<(String, String)>) -> (r: Result<String, ()>)
    ensures
        r is Ok <==> hb_render_of(template@, pairs.deep_view()) is Some,
        r is Ok ==> r->Ok_0@ == hb_render_of(template@, pairs.deep_view())->0,
{
    let mut data = serde_json::Map::new();
    for (k, v) in pairs.iter() {
        data.insert(k.clone(), serde_json::Value::String(v.clone()));
    }
    match handlebars::Handlebars::new().render_template(template, &serde_json::Value::Object(data))
    {
        Ok(s) => Ok(s),
        Err(_) => Err(()),
    }
}

/// The text opening a "first non-empty" block.
pub open spec fn open_marker() -> Seq<char> {
    seq!['{', '{', '#', 'f', 'i', 'r', 's', 't', '}', '}']
}

/// The text closing a "first non-empty" block.
pub open spec fn close_marker() -> Seq<char> {
    seq!['{', '{', '/', 'f', 'i', 'r', 's', 't', '}', '}']
}

/// The separator between the alternatives inside a block.
pub open spec fn alt_sep() -> Seq<char> {
    seq!['|', '|']
}

fn open_marker_vec() -> (r: Vec<char>)
    ensures
        r@ == open_marker(),
{
    let mut r: Vec<char> = Vec::new();
    r.push('{');
    r.push('{');
    r.push('#');
    r.push('f');
    r.push('i');
    r.push('r');
    r.push('s');
    r.push('t');
    r.push('}');
    r.push('}');
    proof {
        assert(r@ =~= open_marker());
    }
    r
}

fn close_marker_vec() -> (r: Vec<char>)
    ensures
        r@ == close_marker(),
{
    let mut r: Vec<char> = Vec::new();
    r.push('{');
    r.push('{');
    r.push('/');
    r.push('f');
    r.push('i');
    r.push('r');
    r.push('s');
    r.push('t');
    r.push('}');
    r.push('}');
    proof {
        assert(r@ =~= close_marker());
    }
    r
}

/// The first part whose text is non-empty; empty if there is none.
pub open spec fn pick_first(parts: Seq<Seq<char>>) -> Seq<char>
    decreases parts.len(),
{
    if parts.len() == 0 {
        Seq::empty()
    } else if parts[0].len() > 0 {
        parts[0]
    } else {
        pick_first(parts.skip(1))
    }
}

/// The first non-empty alternative of a `||`-separated list, after trimming
/// each alternative; empty when every alternative is blank.
pub open spec fn first_nonempty_spec(s: Seq<char>) -> Seq<char> {
    pick_first(split_sub(s, alt_sep()).map_values(|t: Seq<char>| trim_seq(t)))
}

/// Executable `first_nonempty_spec`, working on the suffix of the trimmed
/// parts from `i` on.
fn pick_from(parts: &Vec<Vec<char>>, i: usize) -> (r: Vec<char>)
    requires
        i <= parts@.len(),
    ensures
        r@ == pick_first(parts.deep_view().skip(i as int)),
    decreases parts@.len() - i,
{
    broadcast use lemma_chars_deep_view;

    if i == parts.len() {
        let r: Vec<char> = Vec::new();
        proof {
            assert(parts.deep_view().skip(i as int).len() == 0);
        }
        r
    } else if parts[i].len() > 0 {
        let p = &parts[i];
        let r = vec_slice(p, 0, p.len());
        proof {
            assert(parts.deep_view().skip(i as int)[0] == parts@[i as int]@);
            assert(r@ =~= parts@[i as int]@);
        }
        r
    } else {
        let r = pick_from(parts, i + 1);
        proof {
            assert(parts.deep_view().skip(i as int)[0] == parts@[i as int]@);
            assert(parts.deep_view().skip(i as int).skip(1) =~= parts.deep_view().skip(
                i as int + 1,
            ));
        }
        r
    }
}

/// The "first non-empty" primitive of the template language: `text` is a
/// `||`-separated list of alternatives, and the first one that is non-empty
/// after trimming is kept.
pub fn first_non_empty(text: &str) -> (r: String)
    ensures
        r@ == first_nonempty_spec(text@),
{
    broadcast use lemma_chars_deep_view;

    let v = str_to_chars(text);
    let mut sep: Vec<char> = Vec::new();
    sep.push('|');
    sep.push('|');
    proof {
        assert(sep@ =~= alt_sep());
    }
    let parts = split_sub_exec(&v, &sep);
    let trimmed = trim_parts(&parts);
    let r = pick_from(&trimmed, 0);
    proof {
        assert(trimmed.deep_view().skip(0) =~= trimmed.deep_view());
        assert(parts.deep_view().map_values(|t: Seq<char>| trim_seq(t)) =~= split_sub(
            text@,
            alt_sep(),
        ).map_values(|t: Seq<char>| trim_seq(t)));
    }
    chars_to_string(&r)
}

/// The helper behind the template language's "first" block; `call` reduces a
/// block's rendered body to its first non-empty alternative.
pub struct FirstNonNullHelper;

impl FirstNonNullHelper {
    /// Reduce a rendered block body.
    pub fn call(&self, rendered_text: &str) -> (r: String)
        ensures
            r@ == first_nonempty_spec(rendered_text@),
    {
        first_non_empty(rendered_text)
    }
}

/// The rendering of every block after the first: each such block begins
/// inside a "first" block, whose body is rendered on its own and reduced,
/// and whose tail after the closing marker is rendered as plain template
/// text. `None` when a closing marker is missing or the engine fails.
pub open spec fn render_tail_blocks(
    blocks: Seq<Seq<char>>,
    i: int,
    pairs: Seq<(Seq<char>, Seq<char>)>,
) -> Option<Seq<char>>
    decreases blocks.len() - i,
{
    if i < 0 || i >= blocks.len() {
        Option::Some(Seq::empty())
    } else {
        let b = blocks[i];
        let j = first_sub(b, close_marker()) as int;
        if j + close_marker().len() > b.len() {
            Option::None
        } else {
            match hb_render_of(b.take(j), pairs) {
                Option::None => Option::None,
                Option::Some(ri) => match hb_render_of(b.skip(j + close_marker().len()), pairs) {
                    Option::None => Option::None,
                    Option::Some(rt) => match render_tail_blocks(blocks, i + 1, pairs) {
                        Option::None => Option::None,
                        Option::Some(rest) => Option::Some(
                            first_nonempty_spec(ri) + rt + rest,
                        ),
                    },
                },
            }
        }
    }
}

/// What rendering a whole template against a set of field values produces:
/// the template is cut at every "first" block opening; the leading segment
/// renders as plain template text and each later segment as
/// `render_tail_blocks` says. `None` exactly when the engine fails on a
/// segment or a block is never closed.
pub open spec fn render_text_spec(
    t: Seq<char>,
    pairs: Seq<(Seq<char>, Seq<char>)>,
) -> Option<Seq<char>> {
    let blocks = split_sub(t, open_marker());
    match hb_render_of(blocks[0], pairs) {
        Option::None => Option::None,
        Option::Some(r0) => match render_tail_blocks(blocks, 1, pairs) {
            Option::None => Option::None,
            Option::Some(rest) => Option::Some(r0 + rest),
        },
    }
}

/// Executable `render_tail_blocks`.
fn render_tail(blocks: &Vec<Vec<char>>, i: usize, pairs: &Vec<(String, String)>) -> (r: Result<
    Vec<char>,
    Error,
>)
    requires
        i <= blocks@.len(),
    ensures
        r is Ok <==> render_tail_blocks(blocks.deep_view(), i as int, pairs.deep_view()) is Some,
        r is Ok ==> r->Ok_0@ == render_tail_blocks(
            blocks.deep_view(),
            i as int,
            pairs.deep_view(),
        )->0,
        r is Err ==> r->Err_0 == Error::RenderFailed,
    decreases blocks@.len() - i,
{
    broadcast use lemma_chars_deep_view;

    if i == blocks.len() {
        let r: Vec<char> = Vec::new();
        return Result::Ok(r);
    }
    let b = &blocks[i];
    let cm = close_marker_vec();
    let j = first_sub_exec(b, &cm);
    proof {
        assert(blocks.deep_view()[i as int] == blocks@[i as int]@);
    }
    if j >= b.len() || cm.len() > b.len() - j {
        return Result::Err(Error::RenderFailed);
    }
    let inner = vec_slice(b, 0, j);
    let tail = vec_slice(b, j + cm.len(), b.len());
    proof {
        assert(inner@ =~= blocks@[i as int]@.take(j as int));
        assert(tail@ =~= blocks@[i as int]@.skip(j + close_marker().len()));
    }
    let inner_s = chars_to_string(&inner);
    let ri = match hb_render(inner_s.as_str(), pairs) {
        Result::Ok(s) => s,
        Result::Err(_) => {
            return Result::Err(Error::RenderFailed);
        },
    };
    let tail_s = chars_to_string(&tail);
    let rt = match hb_render(tail_s.as_str(), pairs) {
        Result::Ok(s) => s,
        Result::Err(_) => {
            return Result::Err(Error::RenderFailed);
        },
    };
    let rest = match render_tail(blocks, i + 1, pairs) {
        Result::Ok(v) => v,
        Result::Err(e) => {
            return Result::Err(e);
        },
    };
    let fe = first_non_empty(ri.as_str());
    let mut out = str_to_chars(fe.as_str());
    let mut rt_chars = str_to_chars(rt.as_str());
    out.append(&mut rt_chars);
    let mut rest2 = rest;
    out.append(&mut rest2);
    proof {
        assert(out@ =~= render_tail_blocks(blocks.deep_view(), i as int, pairs.deep_view())->0);
    }
    Result::Ok(out)
}

/// Render a template against a set of field values: plain segments go to the
/// engine, "first" blocks are reduced to their first non-empty alternative.
pub(crate) fn render_text(template: &str, pairs: &Vec<(String, String)>) -> (r: Result<
    String,
    Error,
>)
    ensures
        r is Ok <==> render_text_spec(template@, pairs.deep_view()) is Some,
        r is Ok ==> r->Ok_0@ == render_text_spec(template@, pairs.deep_view())->0,
        r is Err ==> r->Err_0 == Error::RenderFailed,
{
    broadcast use lemma_chars_deep_view;

    let v = str_to_chars(template);
    let om = open_marker_vec();
    let blocks = split_sub_exec(&v, &om);
    proof {
        assert(blocks.deep_view() == split_sub(template@, open_marker()));
        assert(blocks.deep_view().len() >= 1) by {
            lemma_first_sub(template@, open_marker());
        }
        assert(blocks.deep_view()[0] == blocks@[0]@);
    }
    let b0 = &blocks[0];
    let b0_s = chars_to_string(b0);
    let r0 = match hb_render(b0_s.as_str(), pairs) {
        Result::Ok(s) => s,
        Result::Err(_) => {
            return Result::Err(Error::RenderFailed);
        },
    };
    let rest = match render_tail(&blocks, 1, pairs) {
        Result::Ok(v2) => v2,
        Result::Err(e) => {
            return Result::Err(e);
        },
    };
    let mut out = str_to_chars(r0.as_str());
    let mut rest2 = rest;
    out.append(&mut rest2);
    proof {
        assert(out@ =~= render_text_spec(template@, pairs.deep_view())->0);
    }
    Result::Ok(chars_to_string(&out))
}

} // verus!
