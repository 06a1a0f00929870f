use crate::formatter::resolve_country;
use crate::formatter::has_min_components;
use crate::formatter::Formatter;
use crate::formatter::PlaceView;
use crate::place::Component;
use crate::place::NUM_COMPONENTS;
use crate::postprocess::cascade;
use crate::postprocess::cleanup_spec;
use crate::postprocess::dedup_line;
use crate::postprocess::dedup_text;
use crate::postprocess::doomed;
use crate::postprocess::finalize;
use crate::postprocess::step1;
use crate::postprocess::step10;
use crate::postprocess::step11;
use crate::postprocess::step12;
use crate::postprocess::step2;
use crate::postprocess::step3;
use crate::postprocess::step4;
use crate::postprocess::step5;
use crate::postprocess::step6;
use crate::postprocess::step7;
use crate::postprocess::step8;
use crate::postprocess::step9;
use crate::textutil::dedup_adj;
use crate::textutil::lemma_dedup_adj_subset;
use crate::textutil::lemma_join_chars;
use crate::textutil::lemma_sep_free_single;
use crate::textutil::lemma_split_join;
use crate::textutil::lemma_split_parts_no_char;
use crate::textutil::lemma_split_parts_sep_free;
use crate::textutil::lemma_trim_sep_free;
use crate::textutil::comma_sep;
use crate::textutil::no_self_overlap;
use crate::textutil::sep_free;
use crate::textutil::is_ws;
use crate::textutil::lemma_dedup_adj_no_dups;
use crate::textutil::split_sub;
use crate::textutil::trim_end;
use crate::textutil::trim_seq;
use crate::textutil::trim_start;
use vstd::prelude::*;

verus! {

/// Determinism: what `format` returns is a function of the rule store, the
/// place and the configuration alone. Two calls on equal inputs are
/// specified to produce equal outputs — no stage of the pipeline reads
/// anything else.
pub proof fn lemma_format_deterministic(
    f1: &Formatter,
    f2: &Formatter,
    a1: PlaceView,
    a2: PlaceView,
    c1: Option<Seq<char>>,
    c2: Option<Seq<char>>,
)
    requires
        f1 == f2,
        a1 == a2,
        c1 == c2,
    ensures
        f1.format_spec(a1, c1) == f2.format_spec(a2, c2),
{
}

/// Override precedence: when the configuration carries an explicit country
/// code, the resolved country is the same whatever the place's own
/// country_code field holds — the override wins.
pub proof fn lemma_override_precedence(cc: Seq<char>, a1: PlaceView, a2: PlaceView)
    requires
        a1.len() == NUM_COMPONENTS,
        a2.len() == NUM_COMPONENTS,
        forall|i: int|
            0 <= i < a1.len() && i != Component::CountryCode.as_index() ==> a1[i] == #[trigger] a2[i],
    ensures
        resolve_country(Option::Some(cc), a1).0 == resolve_country(Option::Some(cc), a2).0,
{
    assert(a1[Component::State.as_index()] == a2[Component::State.as_index()]);
}

/// On text made of whitespace only, the first cleanup step drops every
/// character: each position opens a run of strippable characters that
/// reaches its line end.
proof fn lemma_all_ws_doomed(t: Seq<char>)
    requires
        t.len() > 0,
        forall|i: int| 0 <= i < t.len() ==> is_ws(#[trigger] t[i]),
    ensures
        doomed(t),
    decreases t.len(),
{
    if !(t.len() == 1 || t[1] == '\n') {
        assert forall|i: int| 0 <= i < t.skip(1).len() implies is_ws(#[trigger] t.skip(1)[i]) by {
            assert(t.skip(1)[i] == t[i + 1]);
        }
        lemma_all_ws_doomed(t.skip(1));
    }
}

/// The first cleanup step erases a whitespace-only text entirely.
proof fn lemma_all_ws_step1_empty(t: Seq<char>)
    requires
        forall|i: int| 0 <= i < t.len() ==> is_ws(#[trigger] t[i]),
    ensures
        step1(t) == Seq::<char>::empty(),
    decreases t.len(),
{
    if t.len() > 0 {
        lemma_all_ws_doomed(t);
        assert forall|i: int| 0 <= i < t.skip(1).len() implies is_ws(#[trigger] t.skip(1)[i]) by {
            assert(t.skip(1)[i] == t[i + 1]);
        }
        lemma_all_ws_step1_empty(t.skip(1));
    }
}

/// Empty-address invariant, at the text level: a rendered text holding
/// nothing but whitespace — what a template of field references and layout
/// whitespace produces for a fully-empty address — cleans up to exactly one
/// newline.
pub proof fn lemma_whitespace_cleans_to_newline(t: Seq<char>)
    requires
        forall|i: int| 0 <= i < t.len() ==> is_ws(#[trigger] t[i]),
    ensures
        cleanup_spec(t) == seq!['\n'],
{
    lemma_all_ws_step1_empty(t);
    let e = Seq::<char>::empty();
    assert(step2(e, true) == e);
    assert(step3(e, true) == e);
    assert(step4(e) == e);
    assert(step5(e) == e);
    assert(step6(e) == e);
    assert(step7(e) == e);
    assert(step8(e) == e);
    assert(step9(e) == e);
    assert(step10(e) == e);
    assert(step11(e) == e);
    assert(step12(e) == e);
    assert(cascade(t) == e);
    assert(split_sub(e, seq!['\n']) == seq![e]);
    assert(split_sub(e, seq![',', ' ']) == seq![e]);
    assert(trim_seq(e) == e);
    assert(split_sub(e, seq![',', ' ']).map_values(|x: Seq<char>| trim_seq(x)) =~= seq![e]);
    assert(dedup_adj(seq![e]) == seq![e]);
    assert(dedup_line(e) == e);
    assert(split_sub(e, seq!['\n']).map_values(|l: Seq<char>| dedup_line(l)) =~= seq![e]);
    assert(dedup_text(e) == e);
    assert(finalize(e) =~= seq!['\n']);
}

/// Empty-address invariant, through the postprocessor: with no
/// country-specific post-render replacements, a whitespace-only rendered
/// text postprocesses to exactly one newline.
pub proof fn lemma_whitespace_formats_to_newline(t: Seq<char>)
    requires
        forall|i: int| 0 <= i < t.len() ==> is_ws(#[trigger] t[i]),
    ensures
        crate::formatter::postprocess_full(t, Seq::empty()) == seq!['\n'],
{
    assert(crate::formatter::apply_postformat(cascade(t), Seq::empty(), 0) == cascade(t));
    lemma_whitespace_cleans_to_newline(t);
}

/// Fallback selection: for a resolved country that has a reduced-detail
/// template of its own, a place lacking both road and postcode renders
/// through exactly that template.
pub proof fn lemma_fallback_selection(f: &Formatter, a: PlaceView, c: Seq<char>)
    requires
        !has_min_components(a),
        f.fallback_text_for(c) is Some,
    ensures
        f.select_template_spec(a, Option::Some(c)) == f.fallback_text_for(c)->0,
{
}

/// Dedup invariant, line level: the lines that the deduplication stage
/// joins into its output are free of consecutive duplicates.
pub proof fn lemma_dedup_lines_distinct(s: Seq<char>)
    ensures
        ({
            let lines = dedup_adj(
                split_sub(s, seq!['\n']).map_values(|l: Seq<char>| dedup_line(l)),
            );
            forall|i: int| 0 <= i < lines.len() - 1 ==> #[trigger] lines[i] != lines[i + 1]
        }),
{
    lemma_dedup_adj_no_dups(split_sub(s, seq!['\n']).map_values(|l: Seq<char>| dedup_line(l)));
}

/// Dedup invariant, token level: the trimmed tokens that one processed line
/// joins with ", " are free of consecutive duplicates.
pub proof fn lemma_dedup_tokens_distinct(line: Seq<char>)
    ensures
        ({
            let toks = dedup_adj(
                split_sub(line, seq![',', ' ']).map_values(|t: Seq<char>| trim_seq(t)),
            );
            forall|i: int| 0 <= i < toks.len() - 1 ==> #[trigger] toks[i] != toks[i + 1]
        }),
{
    lemma_dedup_adj_no_dups(
        split_sub(line, seq![',', ' ']).map_values(|t: Seq<char>| trim_seq(t)),
    );
}

/// Trimming is idempotent: a trimmed text has no surrounding whitespace
/// left to take.
pub proof fn lemma_trim_idempotent(s: Seq<char>)
    ensures
        trim_seq(trim_seq(s)) == trim_seq(s),
{
    lemma_trim_start_all(s);
    lemma_trim_end_all(trim_start(s));
    let t = trim_seq(s);
    if t.len() > 0 {
        assert(!is_ws(t[0]));
        assert(!is_ws(t[t.len() - 1]));
        assert(trim_start(t) == t);
        assert(trim_end(t) == t);
    } else {
        assert(trim_start(t) == t);
        assert(trim_end(t) == t);
    }
}

/// A non-empty trim_start result begins with a non-whitespace character.
proof fn lemma_trim_start_all(s: Seq<char>)
    ensures
        trim_start(s).len() > 0 ==> !is_ws(trim_start(s)[0]),
        trim_start(s).len() > 0 ==> trim_start(s)[trim_start(s).len() - 1] == (if s.len() > 0 {
            s[s.len() - 1]
        } else {
            trim_start(s)[trim_start(s).len() - 1]
        }),
    decreases s.len(),
{
    if s.len() > 0 && is_ws(s[0]) {
        lemma_trim_start_all(s.skip(1));
        if trim_start(s).len() > 0 {
            assert(s.skip(1)[s.skip(1).len() - 1] == s[s.len() - 1]);
        }
    }
}

/// A non-empty trim_end result ends with a non-whitespace character and
/// keeps the first character.
proof fn lemma_trim_end_all(s: Seq<char>)
    ensures
        trim_end(s).len() > 0 ==> !is_ws(trim_end(s)[trim_end(s).len() - 1]),
        trim_end(s).len() > 0 ==> trim_end(s)[0] == s[0],
    decreases s.len(),
{
    if s.len() > 0 && is_ws(s[s.len() - 1]) {
        lemma_trim_end_all(s.take(s.len() - 1));
    }
}

/// Deduplication is idempotent: a list with no consecutive duplicates is
/// its own deduplication.
pub proof fn lemma_dedup_adj_idempotent(parts: Seq<Seq<char>>)
    ensures
        dedup_adj(dedup_adj(parts)) == dedup_adj(parts),
{
    lemma_dedup_adj_no_dups(parts);
    lemma_dedup_of_distinct(dedup_adj(parts));
}

/// A list with no consecutive duplicates is untouched by `dedup_adj`.
proof fn lemma_dedup_of_distinct(parts: Seq<Seq<char>>)
    requires
        forall|i: int| 0 <= i < parts.len() - 1 ==> #[trigger] parts[i] != parts[i + 1],
    ensures
        dedup_adj(parts) == parts,
    decreases parts.len(),
{
    if parts.len() > 1 {
        assert forall|i: int| 0 <= i < parts.skip(1).len() - 1 implies #[trigger] parts.skip(1)[i]
            != parts.skip(1)[i + 1] by {
            assert(parts.skip(1)[i] == parts[i + 1]);
            assert(parts.skip(1)[i + 1] == parts[i + 2]);
        }
        lemma_dedup_of_distinct(parts.skip(1));
        assert(dedup_adj(parts) =~= seq![parts[0]] + parts.skip(1));
        assert(seq![parts[0]] + parts.skip(1) =~= parts);
    }
}

/// Token-level dedup invariant for one processed line: splitting it back on
/// ", " yields tokens of which no two consecutive ones are equal after
/// trimming.
proof fn lemma_line_tokens(line: Seq<char>)
    ensures
        ({
            let toks = split_sub(dedup_line(line), seq![',', ' ']);
            forall|a: int|
                0 <= a < toks.len() - 1 ==> trim_seq(#[trigger] toks[a]) != trim_seq(toks[a + 1])
        }),
{
    let sep2 = seq![',', ' '];
    let raw = split_sub(line, sep2);
    let mapped = raw.map_values(|t: Seq<char>| trim_seq(t));
    let t = dedup_adj(mapped);
    assert(no_self_overlap(sep2)) by {
        assert forall|k: int| 1 <= k < sep2.len() implies #[trigger] sep2.skip(k) != sep2.take(
            sep2.len() - k,
        ) by {
            assert(sep2.skip(1)[0] == ' ');
            assert(sep2.take(1)[0] == ',');
        }
    }
    lemma_split_parts_sep_free(line, sep2);
    lemma_dedup_adj_subset(mapped);
    assert(mapped.len() == raw.len());
    assert forall|k: int| 0 <= k < t.len() implies sep_free(#[trigger] t[k], sep2) && trim_seq(
        t[k],
    ) == t[k] by {
        let m = choose|m: int| 0 <= m < mapped.len() && #[trigger] t[k] == mapped[m];
        assert(mapped[m] == trim_seq(raw[m]));
        lemma_trim_sep_free(raw[m], sep2);
        lemma_trim_idempotent(raw[m]);
    }
    crate::textutil::lemma_split_sub_len(line, sep2);
    assert(t.len() >= 1);
    lemma_split_join(t, sep2);
    assert(split_sub(dedup_line(line), sep2) == t);
    lemma_dedup_adj_no_dups(mapped);
    assert forall|a: int| 0 <= a < t.len() - 1 implies trim_seq(#[trigger] t[a]) != trim_seq(
        t[a + 1],
    ) by {
        assert(trim_seq(t[a]) == t[a]);
        assert(trim_seq(t[a + 1]) == t[a + 1]);
    }
}

/// Dedup invariant over the deduplicated text itself: splitting the output
/// of the deduplication stage back into lines, no two consecutive lines are
/// equal; and splitting any of its lines on ", ", no two consecutive tokens
/// are equal after trimming. The final pass after this stage only strips
/// whitespace at the two ends of the text and appends one newline.
pub proof fn lemma_postprocess_dedup_invariant(s: Seq<char>)
    ensures
        ({
            let lines = split_sub(dedup_text(s), seq!['\n']);
            forall|i: int| 0 <= i < lines.len() - 1 ==> #[trigger] lines[i] != lines[i + 1]
        }),
        ({
            let lines = split_sub(dedup_text(s), seq!['\n']);
            forall|i: int, a: int|
                #![trigger split_sub(lines[i], comma_sep())[a]]
                0 <= i < lines.len() && 0 <= a < split_sub(lines[i], comma_sep()).len() - 1
                    ==> trim_seq(split_sub(lines[i], comma_sep())[a]) != trim_seq(
                    split_sub(lines[i], comma_sep())[a + 1],
                )
        }),
{
    let nl = seq!['\n'];
    let sep2 = seq![',', ' '];
    let raw_lines = split_sub(s, nl);
    let processed = raw_lines.map_values(|l: Seq<char>| dedup_line(l));
    let big = dedup_adj(processed);
    lemma_split_parts_sep_free(s, nl);
    assert forall|k: int| 0 <= k < processed.len() implies sep_free(
        #[trigger] processed[k],
        nl,
    ) by {
        let rl = raw_lines[k];
        assert(processed[k] == dedup_line(rl));
        lemma_sep_free_single(rl, '\n');
        lemma_split_parts_no_char(rl, sep2, '\n');
        let toks = split_sub(rl, sep2);
        let mapped = toks.map_values(|t: Seq<char>| trim_seq(t));
        let tt = dedup_adj(mapped);
        lemma_dedup_adj_subset(mapped);
        assert forall|q: int, i: int|
            0 <= q < tt.len() && 0 <= i < tt[q].len() implies #[trigger] tt[q][i] != '\n' by {
            let m = choose|m: int| 0 <= m < mapped.len() && #[trigger] tt[q] == mapped[m];
            assert(mapped[m] == trim_seq(toks[m]));
            lemma_sep_free_single(toks[m], '\n');
            lemma_trim_sep_free(toks[m], nl);
            lemma_sep_free_single(trim_seq(toks[m]), '\n');
        }
        assert forall|i: int| 0 <= i < sep2.len() implies #[trigger] sep2[i] != '\n' by {}
        lemma_join_chars(tt, sep2, '\n');
        lemma_sep_free_single(dedup_line(rl), '\n');
    }
    lemma_dedup_adj_subset(processed);
    assert forall|k: int| 0 <= k < big.len() implies sep_free(#[trigger] big[k], nl) by {
        let m = choose|m: int| 0 <= m < processed.len() && #[trigger] big[k] == processed[m];
    }
    crate::textutil::lemma_split_sub_len(s, nl);
    assert(big.len() >= 1);
    assert(no_self_overlap(nl));
    lemma_split_join(big, nl);
    assert(split_sub(dedup_text(s), nl) == big);
    lemma_dedup_adj_no_dups(processed);
    let lines = split_sub(dedup_text(s), nl);
    assert forall|i: int, a: int|
        #![trigger split_sub(lines[i], comma_sep())[a]]
        0 <= i < lines.len() && 0 <= a < split_sub(lines[i], comma_sep()).len() - 1 implies
        trim_seq(split_sub(lines[i], comma_sep())[a]) != trim_seq(
        split_sub(lines[i], comma_sep())[a + 1],
    ) by {
        assert(comma_sep() =~= sep2);
        let m = choose|m: int| 0 <= m < processed.len() && #[trigger] big[i] == processed[m];
        assert(processed[m] == dedup_line(raw_lines[m]));
        lemma_line_tokens(raw_lines[m]);
    }
}

/// One processed line is a fixpoint of line processing: its tokens are
/// already trimmed and deduplicated.
proof fn lemma_dedup_line_idempotent(line: Seq<char>)
    ensures
        dedup_line(dedup_line(line)) == dedup_line(line),
{
    let sep2 = seq![',', ' '];
    let raw = split_sub(line, sep2);
    let mapped = raw.map_values(|t: Seq<char>| trim_seq(t));
    let t = dedup_adj(mapped);
    assert(no_self_overlap(sep2)) by {
        assert forall|k: int| 1 <= k < sep2.len() implies #[trigger] sep2.skip(k) != sep2.take(
            sep2.len() - k,
        ) by {
            assert(sep2.skip(1)[0] == ' ');
            assert(sep2.take(1)[0] == ',');
        }
    }
    lemma_split_parts_sep_free(line, sep2);
    lemma_dedup_adj_subset(mapped);
    assert forall|k: int| 0 <= k < t.len() implies sep_free(#[trigger] t[k], sep2) && trim_seq(
        t[k],
    ) == t[k] by {
        let m = choose|m: int| 0 <= m < mapped.len() && #[trigger] t[k] == mapped[m];
        assert(mapped[m] == trim_seq(raw[m]));
        lemma_trim_sep_free(raw[m], sep2);
        lemma_trim_idempotent(raw[m]);
    }
    crate::textutil::lemma_split_sub_len(line, sep2);
    lemma_split_join(t, sep2);
    assert(split_sub(dedup_line(line), sep2) == t);
    assert(t.map_values(|x: Seq<char>| trim_seq(x)) =~= t);
    lemma_dedup_adj_no_dups(mapped);
    lemma_dedup_of_distinct(t);
}

/// Idempotence of the deduplication stage: running it on its own output
/// changes nothing. The full cleanup cascade is not a fixpoint iteration —
/// a pass can leave residue that another run would still collapse — but the
/// deduplication it ends with is stable.
pub proof fn lemma_dedup_text_idempotent(s: Seq<char>)
    ensures
        dedup_text(dedup_text(s)) == dedup_text(s),
{
    let nl = seq!['\n'];
    let raw_lines = split_sub(s, nl);
    let processed = raw_lines.map_values(|l: Seq<char>| dedup_line(l));
    let big = dedup_adj(processed);
    lemma_postprocess_dedup_invariant(s);
    assert(split_sub(dedup_text(s), nl) == big) by {
        let sep2 = seq![',', ' '];
        lemma_split_parts_sep_free(s, nl);
        assert forall|k: int| 0 <= k < processed.len() implies sep_free(
            #[trigger] processed[k],
            nl,
        ) by {
            let rl = raw_lines[k];
            assert(processed[k] == dedup_line(rl));
            lemma_sep_free_single(rl, '\n');
            lemma_split_parts_no_char(rl, sep2, '\n');
            let toks = split_sub(rl, sep2);
            let mapped = toks.map_values(|t: Seq<char>| trim_seq(t));
            let tt = dedup_adj(mapped);
            lemma_dedup_adj_subset(mapped);
            assert forall|q: int, i: int|
                0 <= q < tt.len() && 0 <= i < tt[q].len() implies #[trigger] tt[q][i] != '\n' by {
                let m = choose|m: int| 0 <= m < mapped.len() && #[trigger] tt[q] == mapped[m];
                assert(mapped[m] == trim_seq(toks[m]));
                lemma_sep_free_single(toks[m], '\n');
                lemma_trim_sep_free(toks[m], nl);
                lemma_sep_free_single(trim_seq(toks[m]), '\n');
            }
            assert forall|i: int| 0 <= i < sep2.len() implies #[trigger] sep2[i] != '\n' by {}
            lemma_join_chars(tt, sep2, '\n');
            lemma_sep_free_single(dedup_line(rl), '\n');
        }
        lemma_dedup_adj_subset(processed);
        assert forall|k: int| 0 <= k < big.len() implies sep_free(#[trigger] big[k], nl) by {
            let m = choose|m: int| 0 <= m < processed.len() && #[trigger] big[k] == processed[m];
        }
        crate::textutil::lemma_split_sub_len(s, nl);
        assert(no_self_overlap(nl));
        lemma_split_join(big, nl);
    }
    lemma_dedup_adj_subset(processed);
    assert forall|k: int| 0 <= k < big.len() implies dedup_line(#[trigger] big[k]) == big[k] by {
        let m = choose|m: int| 0 <= m < processed.len() && #[trigger] big[k] == processed[m];
        assert(processed[m] == dedup_line(raw_lines[m]));
        lemma_dedup_line_idempotent(raw_lines[m]);
    }
    assert(split_sub(dedup_text(s), nl).map_values(|l: Seq<char>| dedup_line(l)) =~= big);
    lemma_dedup_adj_no_dups(processed);
    lemma_dedup_of_distinct(big);
}

} // verus!
