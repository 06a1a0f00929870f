use crate::textutil::chars_to_string;
use crate::textutil::count_hws;
use crate::textutil::count_hws_at;
use crate::textutil::count_ws;
use crate::textutil::count_ws_at;
use crate::textutil::dedup_adj;
use crate::textutil::dedup_from;
use crate::textutil::hws_c;
use crate::textutil::is_hws;
use crate::textutil::is_ws;
use crate::textutil::join_from;
use crate::textutil::join_seqs;
use crate::textutil::lemma_chars_deep_view;
use crate::textutil::lemma_count_hws_le;
use crate::textutil::lemma_count_ws_le;
use crate::textutil::split_sub;
use crate::textutil::split_sub_exec;
use crate::textutil::str_to_chars;
use crate::textutil::trim_exec;
use crate::textutil::trim_parts;
use crate::textutil::trim_seq;
use crate::textutil::vec_slice;
use crate::textutil::ws_c;
use vstd::prelude::*;

verus! {

// The rendered text runs through a fixed, ordered cascade of substitutions,
// one pass per step: a pass scans the text left to right and consumes either
// one match (emitting its replacement) or one character. Anchors are
// line-relative, and a run of whitespace may span line breaks exactly where
// the pass allows it.

/// Characters stripped from a line end by the first step: closing brace,
/// comma and whitespace.
pub open spec fn is_trail_junk(c: char) -> bool {
    c == '}' || c == ',' || is_ws(c)
}

/// Characters stripped from a line start by the third step: comma and
/// whitespace.
pub open spec fn is_lead_junk(c: char) -> bool {
    c == ',' || is_ws(c)
}

/// A position is doomed when every character from it up to the next line end
/// is trailing junk: the whole tail of its line is stripped.
pub open spec fn doomed(s: Seq<char>) -> bool
    decreases s.len(),
{
    s.len() > 0 && is_trail_junk(s[0]) && (s.len() == 1 || s[1] == '\n' || doomed(s.skip(1)))
}

/// Step 1: strip a trailing run of `}`, comma, whitespace at each line end.
pub open spec fn step1(s: Seq<char>) -> Seq<char>
    decreases s.len(),
{
    if s.len() == 0 {
        Seq::empty()
    } else if doomed(s) {
        step1(s.skip(1))
    } else {
        seq![s[0]] + step1(s.skip(1))
    }
}

/// Step 2: strip one leading " - " at a line start (`ls` carries whether the
/// scan stands at a line start).
pub open spec fn step2(s: Seq<char>, ls: bool) -> Seq<char>
    decreases s.len(),
{
    if s.len() == 0 {
        Seq::empty()
    } else if ls && s.len() >= 3 && s[0] == ' ' && s[1] == '-' && s[2] == ' ' {
        step2(s.skip(3), false)
    } else {
        seq![s[0]] + step2(s.skip(1), s[0] == '\n')
    }
}

/// Step 3: strip a leading run of commas and whitespace at a line start
/// (`f` carries whether the previous character was stripped or opened a
/// line).
pub open spec fn step3(s: Seq<char>, f: bool) -> Seq<char>
    decreases s.len(),
{
    if s.len() == 0 {
        Seq::empty()
    } else if f && is_lead_junk(s[0]) {
        step3(s.skip(1), true)
    } else {
        seq![s[0]] + step3(s.skip(1), s[0] == '\n')
    }
}

/// Step 4: collapse comma, optional whitespace, comma into ", ".
pub open spec fn step4(s: Seq<char>) -> Seq<char>
    decreases s.len(),
    via step4_decreases
{
    if s.len() == 0 {
        Seq::empty()
    } else if s[0] == ',' && 1 + count_ws(s.skip(1)) < s.len() && s[1 + count_ws(s.skip(1)) as int]
        == ',' {
        seq![',', ' '] + step4(s.skip(2 + count_ws(s.skip(1)) as int))
    } else {
        seq![s[0]] + step4(s.skip(1))
    }
}

#[via_fn]
proof fn step4_decreases(s: Seq<char>) {
    if s.len() > 0 {
        lemma_count_ws_le(s.skip(1));
    }
}

/// Step 5: collapse horizontal whitespace around a comma into ", ".
pub open spec fn step5(s: Seq<char>) -> Seq<char>
    decreases s.len(),
    via step5_decreases
{
    if s.len() == 0 {
        Seq::empty()
    } else if is_hws(s[0]) && count_hws(s) < s.len() && s[count_hws(s) as int] == ',' && count_hws(
        s.skip(count_hws(s) as int + 1),
    ) > 0 {
        seq![',', ' '] + step5(
            s.skip(count_hws(s) as int + 1 + count_hws(s.skip(count_hws(s) as int + 1)) as int),
        )
    } else {
        seq![s[0]] + step5(s.skip(1))
    }
}

#[via_fn]
proof fn step5_decreases(s: Seq<char>) {
    if s.len() > 0 {
        lemma_count_hws_le(s);
        if count_hws(s) < s.len() {
            lemma_count_hws_le(s.skip(count_hws(s) as int + 1));
        }
    }
}

/// Step 6: collapse a run of two or more horizontal whitespace characters
/// into one space.
pub open spec fn step6(s: Seq<char>) -> Seq<char>
    decreases s.len(),
    via step6_decreases
{
    if s.len() >= 2 && is_hws(s[0]) && is_hws(s[1]) {
        seq![' '] + step6(s.skip(count_hws(s) as int))
    } else if s.len() > 0 {
        seq![s[0]] + step6(s.skip(1))
    } else {
        Seq::empty()
    }
}

#[via_fn]
proof fn step6_decreases(s: Seq<char>) {
    if s.len() >= 2 && is_hws(s[0]) && is_hws(s[1]) {
        lemma_count_hws_le(s);
        assert(count_hws(s) == 1 + count_hws(s.skip(1)));
        assert(count_hws(s.skip(1)) >= 1);
    }
}

/// Step 7: drop one horizontal whitespace character standing before a
/// newline.
pub open spec fn step7(s: Seq<char>) -> Seq<char>
    decreases s.len(),
{
    if s.len() >= 2 && is_hws(s[0]) && s[1] == '\n' {
        seq!['\n'] + step7(s.skip(2))
    } else if s.len() > 0 {
        seq![s[0]] + step7(s.skip(1))
    } else {
        Seq::empty()
    }
}

/// Step 8: drop a comma right after a newline.
pub open spec fn step8(s: Seq<char>) -> Seq<char>
    decreases s.len(),
{
    if s.len() >= 2 && s[0] == '\n' && s[1] == ',' {
        seq!['\n'] + step8(s.skip(2))
    } else if s.len() > 0 {
        seq![s[0]] + step8(s.skip(1))
    } else {
        Seq::empty()
    }
}

/// Step 9: collapse a run of commas into one.
pub open spec fn step9(s: Seq<char>) -> Seq<char>
    decreases s.len(),
{
    if s.len() >= 2 && s[0] == ',' && s[1] == ',' {
        step9(s.skip(1))
    } else if s.len() > 0 {
        seq![s[0]] + step9(s.skip(1))
    } else {
        Seq::empty()
    }
}

/// Step 10: drop a comma right before a newline.
pub open spec fn step10(s: Seq<char>) -> Seq<char>
    decreases s.len(),
{
    if s.len() >= 2 && s[0] == ',' && s[1] == '\n' {
        seq!['\n'] + step10(s.skip(2))
    } else if s.len() > 0 {
        seq![s[0]] + step10(s.skip(1))
    } else {
        Seq::empty()
    }
}

/// Step 11: drop horizontal whitespace right after a newline.
pub open spec fn step11(s: Seq<char>) -> Seq<char>
    decreases s.len(),
{
    if s.len() >= 2 && s[0] == '\n' && is_hws(s[1]) {
        step11(seq!['\n'] + s.skip(2))
    } else if s.len() > 0 {
        seq![s[0]] + step11(s.skip(1))
    } else {
        Seq::empty()
    }
}

/// Step 12: collapse a run of newlines into one.
pub open spec fn step12(s: Seq<char>) -> Seq<char>
    decreases s.len(),
{
    if s.len() >= 2 && s[0] == '\n' && s[1] == '\n' {
        step12(s.skip(1))
    } else if s.len() > 0 {
        seq![s[0]] + step12(s.skip(1))
    } else {
        Seq::empty()
    }
}

/// The whole fixed cascade, in order.
pub open spec fn cascade(s: Seq<char>) -> Seq<char> {
    step12(
        step11(
            step10(
                step9(step8(step7(step6(step5(step4(step3(step2(step1(s), true), true))))))),
            ),
        ),
    )
}

/// One line after token deduplication: split on ", ", trim every token, drop
/// consecutive duplicates, join back with ", ".
pub open spec fn dedup_line(line: Seq<char>) -> Seq<char> {
    join_seqs(
        dedup_adj(split_sub(line, seq![',', ' ']).map_values(|t: Seq<char>| trim_seq(t))),
        seq![',', ' '],
    )
}

/// The deduplication pass over the whole text: process every line, then drop
/// consecutive duplicate lines, and join back with newlines.
pub open spec fn dedup_text(s: Seq<char>) -> Seq<char> {
    join_seqs(
        dedup_adj(split_sub(s, seq!['\n']).map_values(|l: Seq<char>| dedup_line(l))),
        seq!['\n'],
    )
}

/// Final pass: strip surrounding whitespace and append exactly one newline.
pub open spec fn finalize(s: Seq<char>) -> Seq<char> {
    trim_seq(s).push('\n')
}

/// The full postprocessing of a rendered text with no country-specific
/// post-render replacements.
pub open spec fn cleanup_spec(s: Seq<char>) -> Seq<char> {
    finalize(dedup_text(cascade(s)))
}

/// Executable `doomed`.
fn doomed_exec(v: &Vec<char>) -> (r: bool)
    ensures
        r == doomed(v@),
    decreases v@.len(),
{
    if v.len() == 0 {
        false
    } else if !(v[0] == '}' || v[0] == ',' || ws_c(v[0])) {
        false
    } else if v.len() == 1 {
        true
    } else if v[1] == '\n' {
        true
    } else {
        let rest = vec_slice(v, 1, v.len());
        proof {
            assert(rest@ =~= v@.skip(1));
        }
        doomed_exec(&rest)
    }
}

/// Executable `step1`.
fn step1_exec(v: &Vec<char>) -> (r: Vec<char>)
    ensures
        r@ == step1(v@),
    decreases v@.len(),
{
    if v.len() == 0 {
        Vec::new()
    } else {
        let rest = vec_slice(v, 1, v.len());
        proof {
            assert(rest@ =~= v@.skip(1));
        }
        if doomed_exec(v) {
            step1_exec(&rest)
        } else {
            let mut r: Vec<char> = Vec::new();
            r.push(v[0]);
            let mut tail = step1_exec(&rest);
            r.append(&mut tail);
            proof {
                assert(r@ =~= step1(v@));
            }
            r
        }
    }
}

/// Executable `step2`.
fn step2_exec(v: &Vec<char>, ls: bool) -> (r: Vec<char>)
    ensures
        r@ == step2(v@, ls),
    decreases v@.len(),
{
    if v.len() == 0 {
        Vec::new()
    } else if ls && v.len() >= 3 && v[0] == ' ' && v[1] == '-' && v[2] == ' ' {
        let rest = vec_slice(v, 3, v.len());
        proof {
            assert(rest@ =~= v@.skip(3));
        }
        step2_exec(&rest, false)
    } else {
        let rest = vec_slice(v, 1, v.len());
        proof {
            assert(rest@ =~= v@.skip(1));
        }
        let mut r: Vec<char> = Vec::new();
        r.push(v[0]);
        let mut tail = step2_exec(&rest, v[0] == '\n');
        r.append(&mut tail);
        proof {
            assert(r@ =~= step2(v@, ls));
        }
        r
    }
}

/// Executable `step3`.
fn step3_exec(v: &Vec<char>, f: bool) -> (r: Vec<char>)
    ensures
        r@ == step3(v@, f),
    decreases v@.len(),
{
    if v.len() == 0 {
        Vec::new()
    } else {
        let rest = vec_slice(v, 1, v.len());
        proof {
            assert(rest@ =~= v@.skip(1));
        }
        if f && (v[0] == ',' || ws_c(v[0])) {
            step3_exec(&rest, true)
        } else {
            let mut r: Vec<char> = Vec::new();
            r.push(v[0]);
            let mut tail = step3_exec(&rest, v[0] == '\n');
            r.append(&mut tail);
            proof {
                assert(r@ =~= step3(v@, f));
            }
            r
        }
    }
}

/// Executable `step4`.
fn step4_exec(v: &Vec<char>) -> (r: Vec<char>)
    ensures
        r@ == step4(v@),
    decreases v@.len(),
{
    if v.len() == 0 {
        return Vec::new();
    }
    if v[0] == ',' {
        let k = count_ws_at(v, 1);
        if 1 + k < v.len() && v[1 + k] == ',' {
            let rest = vec_slice(v, 2 + k, v.len());
            proof {
                assert(rest@ =~= v@.skip(2 + count_ws(v@.skip(1)) as int));
            }
            let mut r: Vec<char> = Vec::new();
            r.push(',');
            r.push(' ');
            let mut tail = step4_exec(&rest);
            r.append(&mut tail);
            proof {
                assert(r@ =~= step4(v@));
            }
            return r;
        }
    }
    let rest = vec_slice(v, 1, v.len());
    proof {
        assert(rest@ =~= v@.skip(1));
    }
    let mut r: Vec<char> = Vec::new();
    r.push(v[0]);
    let mut tail = step4_exec(&rest);
    r.append(&mut tail);
    proof {
        assert(r@ =~= step4(v@));
    }
    r
}

/// Executable `step5`.
fn step5_exec(v: &Vec<char>) -> (r: Vec<char>)
    ensures
        r@ == step5(v@),
    decreases v@.len(),
{
    if v.len() == 0 {
        return Vec::new();
    }
    if hws_c(v[0]) {
        let a = count_hws_at(v, 0);
        proof {
            assert(v@.skip(0) =~= v@);
        }
        if a < v.len() && v[a] == ',' {
            let b = count_hws_at(v, a + 1);
            if b > 0 {
                let rest = vec_slice(v, a + 1 + b, v.len());
                proof {
                    assert(rest@ =~= v@.skip(
                        count_hws(v@) as int + 1 + count_hws(v@.skip(count_hws(v@) as int + 1)) as int,
                    ));
                }
                let mut r: Vec<char> = Vec::new();
                r.push(',');
                r.push(' ');
                let mut tail = step5_exec(&rest);
                r.append(&mut tail);
                proof {
                    assert(r@ =~= step5(v@));
                }
                return r;
            }
        }
    }
    let rest = vec_slice(v, 1, v.len());
    proof {
        assert(rest@ =~= v@.skip(1));
    }
    let mut r: Vec<char> = Vec::new();
    r.push(v[0]);
    let mut tail = step5_exec(&rest);
    r.append(&mut tail);
    proof {
        assert(r@ =~= step5(v@));
    }
    r
}

/// Executable `step6`.
fn step6_exec(v: &Vec<char>) -> (r: Vec<char>)
    ensures
        r@ == step6(v@),
    decreases v@.len(),
{
    if v.len() >= 2 && hws_c(v[0]) && hws_c(v[1]) {
        let a = count_hws_at(v, 0);
        proof {
            assert(v@.skip(0) =~= v@);
            assert(count_hws(v@) == 1 + count_hws(v@.skip(1)));
            assert(count_hws(v@.skip(1)) >= 1);
        }
        let rest = vec_slice(v, a, v.len());
        proof {
            assert(rest@ =~= v@.skip(count_hws(v@) as int));
        }
        let mut r: Vec<char> = Vec::new();
        r.push(' ');
        let mut tail = step6_exec(&rest);
        r.append(&mut tail);
        proof {
            assert(r@ =~= step6(v@));
        }
        r
    } else if v.len() > 0 {
        let rest = vec_slice(v, 1, v.len());
        proof {
            assert(rest@ =~= v@.skip(1));
        }
        let mut r: Vec<char> = Vec::new();
        r.push(v[0]);
        let mut tail = step6_exec(&rest);
        r.append(&mut tail);
        proof {
            assert(r@ =~= step6(v@));
        }
        r
    } else {
        Vec::new()
    }
}

/// Executable `step7`.
fn step7_exec(v: &Vec<char>) -> (r: Vec<char>)
    ensures
        r@ == step7(v@),
    decreases v@.len(),
{
    if v.len() >= 2 && hws_c(v[0]) && v[1] == '\n' {
        let rest = vec_slice(v, 2, v.len());
        proof {
            assert(rest@ =~= v@.skip(2));
        }
        let mut r: Vec<char> = Vec::new();
        r.push('\n');
        let mut tail = step7_exec(&rest);
        r.append(&mut tail);
        proof {
            assert(r@ =~= step7(v@));
        }
        r
    } else if v.len() > 0 {
        let rest = vec_slice(v, 1, v.len());
        proof {
            assert(rest@ =~= v@.skip(1));
        }
        let mut r: Vec<char> = Vec::new();
        r.push(v[0]);
        let mut tail = step7_exec(&rest);
        r.append(&mut tail);
        proof {
            assert(r@ =~= step7(v@));
        }
        r
    } else {
        Vec::new()
    }
}

/// Executable `step8`.
fn step8_exec(v: &Vec<char>) -> (r: Vec<char>)
    ensures
        r@ == step8(v@),
    decreases v@.len(),
{
    if v.len() >= 2 && v[0] == '\n' && v[1] == ',' {
        let rest = vec_slice(v, 2, v.len());
        proof {
            assert(rest@ =~= v@.skip(2));
        }
        let mut r: Vec<char> = Vec::new();
        r.push('\n');
        let mut tail = step8_exec(&rest);
        r.append(&mut tail);
        proof {
            assert(r@ =~= step8(v@));
        }
        r
    } else if v.len() > 0 {
        let rest = vec_slice(v, 1, v.len());
        proof {
            assert(rest@ =~= v@.skip(1));
        }
        let mut r: Vec<char> = Vec::new();
        r.push(v[0]);
        let mut tail = step8_exec(&rest);
        r.append(&mut tail);
        proof {
            assert(r@ =~= step8(v@));
        }
        r
    } else {
        Vec::new()
    }
}

/// Executable `step9`.
fn step9_exec(v: &Vec<char>) -> (r: Vec<char>)
    ensures
        r@ == step9(v@),
    decreases v@.len(),
{
    if v.len() >= 2 && v[0] == ',' && v[1] == ',' {
        let rest = vec_slice(v, 1, v.len());
        proof {
            assert(rest@ =~= v@.skip(1));
        }
        step9_exec(&rest)
    } else if v.len() > 0 {
        let rest = vec_slice(v, 1, v.len());
        proof {
            assert(rest@ =~= v@.skip(1));
        }
        let mut r: Vec<char> = Vec::new();
        r.push(v[0]);
        let mut tail = step9_exec(&rest);
        r.append(&mut tail);
        proof {
            assert(r@ =~= step9(v@));
        }
        r
    } else {
        Vec::new()
    }
}

/// Executable `step10`.
fn step10_exec(v: &Vec<char>) -> (r: Vec<char>)
    ensures
        r@ == step10(v@),
    decreases v@.len(),
{
    if v.len() >= 2 && v[0] == ',' && v[1] == '\n' {
        let rest = vec_slice(v, 2, v.len());
        proof {
            assert(rest@ =~= v@.skip(2));
        }
        let mut r: Vec<char> = Vec::new();
        r.push('\n');
        let mut tail = step10_exec(&rest);
        r.append(&mut tail);
        proof {
            assert(r@ =~= step10(v@));
        }
        r
    } else if v.len() > 0 {
        let rest = vec_slice(v, 1, v.len());
        proof {
            assert(rest@ =~= v@.skip(1));
        }
        let mut r: Vec<char> = Vec::new();
        r.push(v[0]);
        let mut tail = step10_exec(&rest);
        r.append(&mut tail);
        proof {
            assert(r@ =~= step10(v@));
        }
        r
    } else {
        Vec::new()
    }
}

/// Executable `step11`.
fn step11_exec(v: &Vec<char>) -> (r: Vec<char>)
    ensures
        r@ == step11(v@),
    decreases v@.len(),
{
    if v.len() >= 2 && v[0] == '\n' && hws_c(v[1]) {
        let mut w: Vec<char> = Vec::new();
        w.push('\n');
        let mut t = vec_slice(v, 2, v.len());
        w.append(&mut t);
        proof {
            assert(w@ =~= seq!['\n'] + v@.skip(2));
        }
        step11_exec(&w)
    } else if v.len() > 0 {
        let rest = vec_slice(v, 1, v.len());
        proof {
            assert(rest@ =~= v@.skip(1));
        }
        let mut r: Vec<char> = Vec::new();
        r.push(v[0]);
        let mut tail = step11_exec(&rest);
        r.append(&mut tail);
        proof {
            assert(r@ =~= step11(v@));
        }
        r
    } else {
        Vec::new()
    }
}

/// Executable `step12`.
fn step12_exec(v: &Vec<char>) -> (r: Vec<char>)
    ensures
        r@ == step12(v@),
    decreases v@.len(),
{
    if v.len() >= 2 && v[0] == '\n' && v[1] == '\n' {
        let rest = vec_slice(v, 1, v.len());
        proof {
            assert(rest@ =~= v@.skip(1));
        }
        step12_exec(&rest)
    } else if v.len() > 0 {
        let rest = vec_slice(v, 1, v.len());
        proof {
            assert(rest@ =~= v@.skip(1));
        }
        let mut r: Vec<char> = Vec::new();
        r.push(v[0]);
        let mut tail = step12_exec(&rest);
        r.append(&mut tail);
        proof {
            assert(r@ =~= step12(v@));
        }
        r
    } else {
        Vec::new()
    }
}

/// Executable `cascade`.
pub(crate) fn cascade_exec(v: &Vec<char>) -> (r: Vec<char>)
    ensures
        r@ == cascade(v@),
{
    let r1 = step1_exec(v);
    let r2 = step2_exec(&r1, true);
    let r3 = step3_exec(&r2, true);
    let r4 = step4_exec(&r3);
    let r5 = step5_exec(&r4);
    let r6 = step6_exec(&r5);
    let r7 = step7_exec(&r6);
    let r8 = step8_exec(&r7);
    let r9 = step9_exec(&r8);
    let r10 = step10_exec(&r9);
    let r11 = step11_exec(&r10);
    step12_exec(&r11)
}

/// Executable `dedup_line`.
fn dedup_line_exec(line: &Vec<char>) -> (r: Vec<char>)
    ensures
        r@ == dedup_line(line@),
{
    broadcast use lemma_chars_deep_view;

    let mut sep: Vec<char> = Vec::new();
    sep.push(',');
    sep.push(' ');
    proof {
        assert(sep@ =~= seq![',', ' ']);
    }
    let parts = split_sub_exec(line, &sep);
    let trimmed = trim_parts(&parts);
    let deduped = dedup_from(&trimmed, 0);
    let joined = join_from(&deduped, &sep, 0);
    proof {
        assert(trimmed.deep_view().skip(0) =~= trimmed.deep_view());
        assert(deduped.deep_view().skip(0) =~= deduped.deep_view());
        assert(parts.deep_view().map_values(|t: Seq<char>| trim_seq(t)) =~= split_sub(
            line@,
            seq![',', ' '],
        ).map_values(|t: Seq<char>| trim_seq(t)));
    }
    joined
}

/// Executable `dedup_text`.
pub(crate) fn dedup_text_exec(v: &Vec<char>) -> (r: Vec<char>)
    ensures
        r@ == dedup_text(v@),
{
    broadcast use lemma_chars_deep_view;

    let mut nl: Vec<char> = Vec::new();
    nl.push('\n');
    proof {
        assert(nl@ =~= seq!['\n']);
    }
    let lines = split_sub_exec(v, &nl);
    let mut processed: Vec<Vec<char>> = Vec::new();
    let mut i: usize = 0;
    while i < lines.len()
        invariant
            i <= lines@.len(),
            processed@.len() == i,
            forall|j: int|
                0 <= j < i ==> #[trigger] processed.deep_view()[j] == dedup_line(
                    lines.deep_view()[j],
                ),
        decreases lines@.len() - i,
    {
        let l = &lines[i];
        let ghost p0 = processed;
        processed.push(dedup_line_exec(l));
        i += 1;
        proof {
            assert forall|j: int| 0 <= j < i implies #[trigger] processed.deep_view()[j]
                == dedup_line(lines.deep_view()[j]) by {
                assert(lines.deep_view()[j] == lines@[j]@);
                if j == i - 1 {
                    assert(processed.deep_view()[j] == processed@[j]@);
                    assert(processed@[j]@ == dedup_line(lines@[j]@));
                } else {
                    assert(processed@[j] == p0@[j]);
                    assert(processed.deep_view()[j] == p0.deep_view()[j]);
                    assert(p0.deep_view()[j] == dedup_line(lines.deep_view()[j]));
                }
            }
        }
    }
    let deduped = dedup_from(&processed, 0);
    let joined = join_from(&deduped, &nl, 0);
    proof {
        assert(processed.deep_view() =~= split_sub(v@, seq!['\n']).map_values(
            |l: Seq<char>| dedup_line(l),
        ));
        assert(processed.deep_view().skip(0) =~= processed.deep_view());
        assert(deduped.deep_view().skip(0) =~= deduped.deep_view());
    }
    joined
}

/// Executable `finalize`.
pub(crate) fn finalize_exec(v: &Vec<char>) -> (r: Vec<char>)
    ensures
        r@ == finalize(v@),
{
    let mut r = trim_exec(v);
    r.push('\n');
    r
}

/// Run the fixed cleanup cascade, deduplication and final trim on a text, as
/// `format` does after rendering, for a country with no post-render
/// replacements of its own.
pub fn cleanup_text(text: &str) -> (r: String)
    ensures
        r@ == cleanup_spec(text@),
{
    let v = str_to_chars(text);
    let c = cascade_exec(&v);
    let d = dedup_text_exec(&c);
    let f = finalize_exec(&d);
    chars_to_string(&f)
}

} // verus!
