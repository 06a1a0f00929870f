use vstd::prelude::*;

verus! {

// The cleanup cascade and the deduplication stage work on ASCII whitespace:
// space and tab horizontally, with newline and carriage return as the other
// whitespace characters a rendered address can contain.

/// Horizontal whitespace: space or tab.
pub open spec fn is_hws(c: char) -> bool {
    c == ' ' || c == '\t'
}

/// Whitespace: space, tab, newline or carriage return.
pub open spec fn is_ws(c: char) -> bool {
    is_hws(c) || c == '\n' || c == '\r'
}

/// Executable `is_hws`.
pub fn hws_c(c: char) -> (r: bool)
    ensures
        r == is_hws(c),
{
    c == ' ' || c == '\t'
}

/// Executable `is_ws`.
pub fn ws_c(c: char) -> (r: bool)
    ensures
        r == is_ws(c),
{
    c == ' ' || c == '\t' || c == '\n' || c == '\r'
}

/// Relies on str::chars: iterating a string yields exactly the characters of
/// its view, in order; collect builds the vector from them.
#[verifier::external_body]
pub fn str_to_chars(s: &str) -> (r: Vec<char>)
    ensures
        r@ == s@,
{
    s.chars().collect()
}

/// Relies on String's FromIterator over char: collecting characters builds
/// the string holding exactly those characters, in order.
#[verifier::external_body]
pub fn chars_to_string(v: &Vec<char>) -> (r: String)
    ensures
        r@ == v@,
{
    v.iter().collect()
}

/// Copy of `v[from..to]`.
pub fn vec_slice(v: &Vec<char>, from: usize, to: usize) -> (r: Vec<char>)
    requires
        from <= to <= v@.len(),
    ensures
        r@ == v@.subrange(from as int, to as int),
{
    let mut r: Vec<char> = Vec::new();
    let mut i: usize = from;
    while i < to
        invariant
            from <= i <= to <= v@.len(),
            r@ == v@.subrange(from as int, i as int),
        decreases to - i,
    {
        r.push(v[i]);
        i += 1;
        proof {
            assert(r@ =~= v@.subrange(from as int, i as int));
        }
    }
    r
}

/// Equality of two character vectors.
pub fn chars_eq(a: &Vec<char>, b: &Vec<char>) -> (r: bool)
    ensures
        r == (a@ == b@),
{
    if a.len() != b.len() {
        return false;
    }
    let mut i: usize = 0;
    while i < a.len()
        invariant
            a@.len() == b@.len(),
            i <= a@.len(),
            forall|j: int| 0 <= j < i ==> a@[j] == b@[j],
        decreases a@.len() - i,
    {
        if a[i] != b[i] {
            return false;
        }
        i += 1;
    }
    proof {
        assert(a@ =~= b@);
    }
    true
}

/// Equality of two string slices, decided character by character.
pub fn str_eq(a: &str, b: &str) -> (r: bool)
    ensures
        r == (a@ == b@),
{
    let la = a.unicode_len();
    let lb = b.unicode_len();
    if la != lb {
        return false;
    }
    let mut i: usize = 0;
    while i < la
        invariant
            la == a@.len() == b@.len(),
            i <= la,
            forall|j: int| 0 <= j < i ==> a@[j] == b@[j],
        decreases la - i,
    {
        if a.get_char(i) != b.get_char(i) {
            return false;
        }
        i += 1;
    }
    proof {
        assert(a@ =~= b@);
    }
    true
}

/// Number of leading whitespace characters.
pub open spec fn count_ws(s: Seq<char>) -> nat
    decreases s.len(),
{
    if s.len() > 0 && is_ws(s[0]) {
        1 + count_ws(s.skip(1))
    } else {
        0
    }
}

/// Number of leading horizontal-whitespace characters.
pub open spec fn count_hws(s: Seq<char>) -> nat
    decreases s.len(),
{
    if s.len() > 0 && is_hws(s[0]) {
        1 + count_hws(s.skip(1))
    } else {
        0
    }
}

pub proof fn lemma_count_ws_le(s: Seq<char>)
    ensures
        count_ws(s) <= s.len(),
    decreases s.len(),
{
    if s.len() > 0 && is_ws(s[0]) {
        lemma_count_ws_le(s.skip(1));
    }
}

pub proof fn lemma_count_hws_le(s: Seq<char>)
    ensures
        count_hws(s) <= s.len(),
    decreases s.len(),
{
    if s.len() > 0 && is_hws(s[0]) {
        lemma_count_hws_le(s.skip(1));
    }
}

/// Executable `count_ws` on a suffix of `v`, starting at `from`.
pub fn count_ws_at(v: &Vec<char>, from: usize) -> (n: usize)
    requires
        from <= v@.len(),
    ensures
        n == count_ws(v@.skip(from as int)),
        from + n <= v@.len(),
    decreases v@.len() - from,
{
    proof {
        lemma_count_ws_le(v@.skip(from as int));
    }
    if from < v.len() && ws_c(v[from]) {
        let n = count_ws_at(v, from + 1);
        proof {
            assert(v@.skip(from as int).skip(1) =~= v@.skip(from as int + 1));
        }
        n + 1
    } else {
        0
    }
}

/// Executable `count_hws` on a suffix of `v`, starting at `from`.
pub fn count_hws_at(v: &Vec<char>, from: usize) -> (n: usize)
    requires
        from <= v@.len(),
    ensures
        n == count_hws(v@.skip(from as int)),
        from + n <= v@.len(),
    decreases v@.len() - from,
{
    proof {
        lemma_count_hws_le(v@.skip(from as int));
    }
    if from < v.len() && hws_c(v[from]) {
        let n = count_hws_at(v, from + 1);
        proof {
            assert(v@.skip(from as int).skip(1) =~= v@.skip(from as int + 1));
        }
        n + 1
    } else {
        0
    }
}

/// The deep view of a character vector is its view.
pub broadcast proof fn lemma_chars_deep_view(v: Vec<char>)
    ensures
        #[trigger] v.deep_view() == v@,
{
    assert(v.deep_view() =~= v@);
}

/// `s` begins with `p`.
pub open spec fn starts_with(s: Seq<char>, p: Seq<char>) -> bool {
    s.len() >= p.len() && s.take(p.len() as int) == p
}

/// Executable `starts_with` on the suffix of `v` beginning at `from`.
pub fn starts_with_at(v: &Vec<char>, from: usize, p: &Vec<char>) -> (r: bool)
    requires
        from <= v@.len(),
    ensures
        r == starts_with(v@.skip(from as int), p@),
{
    if v.len() - from < p.len() {
        return false;
    }
    let mut i: usize = 0;
    while i < p.len()
        invariant
            from + p@.len() <= v@.len(),
            v@.len() <= usize::MAX,
            i <= p@.len(),
            forall|j: int| 0 <= j < i ==> v@[from + j] == p@[j],
        decreases p@.len() - i,
    {
        if v[from + i] != p[i] {
            proof {
                assert(v@.skip(from as int).take(p@.len() as int)[i as int] != p@[i as int]);
            }
            return false;
        }
        i += 1;
    }
    proof {
        assert(v@.skip(from as int).take(p@.len() as int) =~= p@);
    }
    true
}

/// Index of the first occurrence of `sep` in `s`; `s.len()` if there is none.
pub open spec fn first_sub(s: Seq<char>, sep: Seq<char>) -> nat
    decreases s.len(),
{
    if s.len() < sep.len() {
        s.len()
    } else if starts_with(s, sep) {
        0
    } else if s.len() == 0 {
        0
    } else {
        1 + first_sub(s.skip(1), sep)
    }
}

/// What `first_sub` returns: the earliest match position, or the length of
/// `s` when there is no match at all.
pub proof fn lemma_first_sub(s: Seq<char>, sep: Seq<char>)
    requires
        sep.len() > 0,
    ensures
        first_sub(s, sep) <= s.len(),
        first_sub(s, sep) + sep.len() <= s.len() ==> starts_with(
            s.skip(first_sub(s, sep) as int),
            sep,
        ),
        first_sub(s, sep) + sep.len() > s.len() ==> first_sub(s, sep) == s.len(),
        forall|m: int|
            0 <= m < first_sub(s, sep) ==> !starts_with(#[trigger] s.skip(m), sep),
    decreases s.len(),
{
    if s.len() < sep.len() {
        assert forall|m: int| 0 <= m < first_sub(s, sep) implies !starts_with(
            #[trigger] s.skip(m),
            sep,
        ) by {
            assert(s.skip(m).len() < sep.len());
        }
    } else if starts_with(s, sep) {
        assert(s.skip(0) =~= s);
    } else {
        lemma_first_sub(s.skip(1), sep);
        let j = first_sub(s, sep);
        assert(j == 1 + first_sub(s.skip(1), sep));
        if j + sep.len() <= s.len() {
            assert(s.skip(1).skip(j - 1) =~= s.skip(j as int));
        }
        assert forall|m: int| 0 <= m < j implies !starts_with(#[trigger] s.skip(m), sep) by {
            if m == 0 {
                assert(s.skip(0) =~= s);
            } else {
                assert(s.skip(1).skip(m - 1) =~= s.skip(m));
                assert(!starts_with(s.skip(1).skip(m - 1), sep));
            }
        }
    }
}

/// Executable `first_sub` on `v`.
pub fn first_sub_exec(v: &Vec<char>, sep: &Vec<char>) -> (r: usize)
    requires
        sep@.len() > 0,
    ensures
        r == first_sub(v@, sep@),
        r <= v@.len(),
    decreases v@.len(),
{
    proof {
        lemma_first_sub(v@, sep@);
    }
    if v.len() < sep.len() {
        v.len()
    } else if starts_with_at(v, 0, sep) {
        proof {
            assert(v@.skip(0) =~= v@);
        }
        0
    } else {
        proof {
            assert(v@.skip(0) =~= v@);
        }
        let rest = vec_slice(v, 1, v.len());
        proof {
            assert(rest@ =~= v@.skip(1));
        }
        1 + first_sub_exec(&rest, sep)
    }
}

/// Split `s` on every occurrence of `sep`, left to right.
pub open spec fn split_sub(s: Seq<char>, sep: Seq<char>) -> Seq<Seq<char>>
    decreases s.len(),
    when sep.len() > 0
{
    let j = first_sub(s, sep) as int;
    if j + sep.len() > s.len() {
        seq![s]
    } else {
        seq![s.take(j)] + split_sub(s.skip(j + sep.len()), sep)
    }
}

/// Executable `split_sub`.
pub fn split_sub_exec(v: &Vec<char>, sep: &Vec<char>) -> (r: Vec<Vec<char>>)
    requires
        sep@.len() > 0,
    ensures
        r.deep_view() == split_sub(v@, sep@),
    decreases v@.len(),
{
    broadcast use lemma_chars_deep_view;

    proof {
        lemma_first_sub(v@, sep@);
    }
    let j = first_sub_exec(v, sep);
    if j >= v.len() || sep.len() > v.len() - j {
        let mut r: Vec<Vec<char>> = Vec::new();
        r.push(vec_slice(v, 0, v.len()));
        proof {
            assert(v@.subrange(0, v@.len() as int) =~= v@);
            assert(r.deep_view() =~= split_sub(v@, sep@));
        }
        r
    } else {
        let tail = vec_slice(v, j + sep.len(), v.len());
        proof {
            assert(tail@ =~= v@.skip(j + sep@.len()));
        }
        let mut rest = split_sub_exec(&tail, sep);
        let mut r: Vec<Vec<char>> = Vec::new();
        r.push(vec_slice(v, 0, j));
        r.append(&mut rest);
        proof {
            assert(v@.subrange(0, j as int) =~= v@.take(j as int));
            assert(r.deep_view() =~= split_sub(v@, sep@));
        }
        r
    }
}

/// A split always yields at least one part.
pub proof fn lemma_split_sub_len(s: Seq<char>, sep: Seq<char>)
    requires
        sep.len() > 0,
    ensures
        split_sub(s, sep).len() >= 1,
{
}

/// Concatenate `parts` with `sep` between consecutive parts.
pub open spec fn join_seqs(parts: Seq<Seq<char>>, sep: Seq<char>) -> Seq<char>
    decreases parts.len(),
{
    if parts.len() == 0 {
        Seq::empty()
    } else if parts.len() == 1 {
        parts[0]
    } else {
        parts[0] + sep + join_seqs(parts.skip(1), sep)
    }
}

/// Executable `join_seqs`, working on the suffix of `parts` from `i` on.
pub fn join_from(parts: &Vec<Vec<char>>, sep: &Vec<char>, i: usize) -> (r: Vec<char>)
    requires
        i <= parts@.len(),
    ensures
        r@ == join_seqs(parts.deep_view().skip(i as int), sep@),
    decreases parts@.len() - i,
{
    broadcast use lemma_chars_deep_view;

    if i == parts.len() {
        let r: Vec<char> = Vec::new();
        proof {
            assert(parts.deep_view().skip(i as int).len() == 0);
        }
        r
    } else if i + 1 == parts.len() {
        let p = &parts[i];
        let r = vec_slice(p, 0, p.len());
        proof {
            assert(parts.deep_view().skip(i as int).len() == 1);
            assert(parts.deep_view().skip(i as int)[0] == parts@[i as int]@);
            assert(r@ =~= parts@[i as int]@);
        }
        r
    } else {
        let p = &parts[i];
        let mut r = vec_slice(p, 0, p.len());
        let mut sep_copy = vec_slice(sep, 0, sep.len());
        r.append(&mut sep_copy);
        let mut rest = join_from(parts, sep, i + 1);
        r.append(&mut rest);
        proof {
            let dv = parts.deep_view().skip(i as int);
            assert(parts@[i as int]@.subrange(0, parts@[i as int]@.len() as int) =~= parts@[
                i as int
            ]@);
            assert(sep@.subrange(0, sep@.len() as int) =~= sep@);
            assert(dv.len() >= 2);
            assert(dv[0] == parts@[i as int]@);
            assert(dv.skip(1) =~= parts.deep_view().skip(i as int + 1));
            assert(join_seqs(dv, sep@) == dv[0] + sep@ + join_seqs(dv.skip(1), sep@));
            assert(r@ =~= dv[0] + sep@ + join_seqs(dv.skip(1), sep@));
        }
        r
    }
}

/// Remove leading whitespace.
pub open spec fn trim_start(s: Seq<char>) -> Seq<char>
    decreases s.len(),
{
    if s.len() > 0 && is_ws(s[0]) {
        trim_start(s.skip(1))
    } else {
        s
    }
}

/// Remove trailing whitespace.
pub open spec fn trim_end(s: Seq<char>) -> Seq<char>
    decreases s.len(),
{
    if s.len() > 0 && is_ws(s[s.len() - 1]) {
        trim_end(s.take(s.len() - 1))
    } else {
        s
    }
}

/// Remove leading and trailing whitespace.
pub open spec fn trim_seq(s: Seq<char>) -> Seq<char> {
    trim_end(trim_start(s))
}

/// Executable `trim_start`.
pub fn trim_start_exec(v: &Vec<char>) -> (r: Vec<char>)
    ensures
        r@ == trim_start(v@),
    decreases v@.len(),
{
    if v.len() > 0 && ws_c(v[0]) {
        let rest = vec_slice(v, 1, v.len());
        proof {
            assert(rest@ =~= v@.skip(1));
        }
        trim_start_exec(&rest)
    } else {
        let r = vec_slice(v, 0, v.len());
        proof {
            assert(r@ =~= v@);
        }
        r
    }
}

/// Executable `trim_end`.
pub fn trim_end_exec(v: &Vec<char>) -> (r: Vec<char>)
    ensures
        r@ == trim_end(v@),
    decreases v@.len(),
{
    if v.len() > 0 && ws_c(v[v.len() - 1]) {
        let rest = vec_slice(v, 0, v.len() - 1);
        proof {
            assert(rest@ =~= v@.take(v@.len() - 1));
        }
        trim_end_exec(&rest)
    } else {
        let r = vec_slice(v, 0, v.len());
        proof {
            assert(r@ =~= v@);
        }
        r
    }
}

/// Executable `trim_seq`.
pub fn trim_exec(v: &Vec<char>) -> (r: Vec<char>)
    ensures
        r@ == trim_seq(v@),
{
    let t = trim_start_exec(v);
    trim_end_exec(&t)
}

/// Drop every part that equals its immediate predecessor.
pub open spec fn dedup_adj(parts: Seq<Seq<char>>) -> Seq<Seq<char>>
    decreases parts.len(),
{
    if parts.len() <= 1 {
        parts
    } else if parts[0] == parts[1] {
        dedup_adj(parts.skip(1))
    } else {
        seq![parts[0]] + dedup_adj(parts.skip(1))
    }
}

/// After `dedup_adj` no two consecutive parts are equal, and the first part
/// (if any) is the first input part.
pub proof fn lemma_dedup_adj_no_dups(parts: Seq<Seq<char>>)
    ensures
        forall|i: int|
            0 <= i < dedup_adj(parts).len() - 1 ==> #[trigger] dedup_adj(parts)[i] != dedup_adj(
                parts,
            )[i + 1],
        parts.len() > 0 ==> dedup_adj(parts).len() > 0 && dedup_adj(parts)[0] == parts[0],
    decreases parts.len(),
{
    if parts.len() <= 1 {
    } else {
        lemma_dedup_adj_no_dups(parts.skip(1));
        if parts[0] == parts[1] {
        } else {
            let d = dedup_adj(parts);
            let dr = dedup_adj(parts.skip(1));
            assert(d == seq![parts[0]] + dr);
            assert(dr[0] == parts.skip(1)[0]);
            assert forall|i: int| 0 <= i < d.len() - 1 implies #[trigger] d[i] != d[i + 1] by {
                if i == 0 {
                    assert(d[0] == parts[0]);
                    assert(d[1] == dr[0]);
                } else {
                    assert(d[i] == dr[i - 1]);
                    assert(d[i + 1] == dr[i]);
                }
            }
        }
    }
}

/// Executable `dedup_adj`, working on the suffix of `parts` from `i` on.
pub fn dedup_from(parts: &Vec<Vec<char>>, i: usize) -> (r: Vec<Vec<char>>)
    requires
        i <= parts@.len(),
    ensures
        r.deep_view() == dedup_adj(parts.deep_view().skip(i as int)),
    decreases parts@.len() - i,
{
    broadcast use lemma_chars_deep_view;

    let n = parts.len();
    if n - i <= 1 {
        let mut r: Vec<Vec<char>> = Vec::new();
        if i < n {
            let p = &parts[i];
            r.push(vec_slice(p, 0, p.len()));
        }
        proof {
            let dv = parts.deep_view().skip(i as int);
            assert(dv.len() <= 1);
            if i < n {
                assert(parts@[i as int]@.subrange(0, parts@[i as int]@.len() as int) =~= parts@[
                    i as int
                ]@);
                assert(dv[0] == parts@[i as int]@);
            }
            assert(r.deep_view() =~= dedup_adj(dv));
        }
        r
    } else if chars_eq(&parts[i], &parts[i + 1]) {
        let r = dedup_from(parts, i + 1);
        proof {
            let dv = parts.deep_view().skip(i as int);
            assert(dv[0] == parts@[i as int]@);
            assert(dv[1] == parts@[i as int + 1]@);
            assert(dv.skip(1) =~= parts.deep_view().skip(i as int + 1));
        }
        r
    } else {
        let mut rest = dedup_from(parts, i + 1);
        let p = &parts[i];
        let mut r: Vec<Vec<char>> = Vec::new();
        r.push(vec_slice(p, 0, p.len()));
        r.append(&mut rest);
        proof {
            let dv = parts.deep_view().skip(i as int);
            assert(parts@[i as int]@.subrange(0, parts@[i as int]@.len() as int) =~= parts@[
                i as int
            ]@);
            assert(dv[0] == parts@[i as int]@);
            assert(dv[1] == parts@[i as int + 1]@);
            assert(dv.skip(1) =~= parts.deep_view().skip(i as int + 1));
            assert(dedup_adj(dv) == seq![dv[0]] + dedup_adj(dv.skip(1)));
            assert(r.deep_view() =~= dedup_adj(dv));
        }
        r
    }
}

/// Trim every part.
pub fn trim_parts(parts: &Vec<Vec<char>>) -> (r: Vec<Vec<char>>)
    ensures
        r.deep_view() == parts.deep_view().map_values(|t: Seq<char>| trim_seq(t)),
{
    broadcast use lemma_chars_deep_view;

    let mut r: Vec<Vec<char>> = Vec::new();
    let mut i: usize = 0;
    while i < parts.len()
        invariant
            i <= parts@.len(),
            r@.len() == i,
            forall|j: int| 0 <= j < i ==> #[trigger] r.deep_view()[j] == trim_seq(
                parts.deep_view()[j],
            ),
        decreases parts@.len() - i,
    {
        let p = &parts[i];
        let ghost r0 = r;
        r.push(trim_exec(p));
        i += 1;
        proof {
            assert forall|j: int| 0 <= j < i implies #[trigger] r.deep_view()[j] == trim_seq(
                parts.deep_view()[j],
            ) by {
                assert(parts.deep_view()[j] == parts@[j]@);
                if j == i - 1 {
                    assert(r.deep_view()[j] == r@[j]@);
                    assert(r@[j]@ == trim_seq(parts@[j]@));
                } else {
                    assert(r@[j] == r0@[j]);
                    assert(r.deep_view()[j] == r0.deep_view()[j]);
                    assert(r0.deep_view()[j] == trim_seq(parts.deep_view()[j]));
                }
            }
        }
    }
    proof {
        assert(r.deep_view() =~= parts.deep_view().map_values(|t: Seq<char>| trim_seq(t)));
    }
    r
}

/// The token separator of the cleanup pipeline.
pub open spec fn comma_sep() -> Seq<char> {
    seq![',', ' ']
}

/// No occurrence of `sep` anywhere in `p`.
pub open spec fn sep_free(p: Seq<char>, sep: Seq<char>) -> bool {
    forall|m: int| 0 <= m && m + sep.len() <= p.len() ==> !starts_with(#[trigger] p.skip(m), sep)
}

/// A separator that no proper suffix of which is one of its prefixes: an
/// occurrence of it can then never straddle a join boundary.
pub open spec fn no_self_overlap(sep: Seq<char>) -> bool {
    forall|k: int| 1 <= k < sep.len() ==> #[trigger] sep.skip(k) != sep.take(sep.len() - k)
}

/// In a text with no occurrence of `sep`, the search finds nothing.
pub proof fn lemma_first_sub_of_sep_free(p: Seq<char>, sep: Seq<char>)
    requires
        sep.len() > 0,
        sep_free(p, sep),
    ensures
        first_sub(p, sep) + sep.len() > p.len(),
        first_sub(p, sep) == p.len(),
{
    lemma_first_sub(p, sep);
}

/// Every part of a split is free of the separator.
pub proof fn lemma_split_parts_sep_free(s: Seq<char>, sep: Seq<char>)
    requires
        sep.len() > 0,
    ensures
        forall|k: int|
            0 <= k < split_sub(s, sep).len() ==> sep_free(#[trigger] split_sub(s, sep)[k], sep),
    decreases s.len(),
{
    lemma_first_sub(s, sep);
    let j = first_sub(s, sep) as int;
    if j + sep.len() > s.len() {
        assert(j == s.len());
        assert forall|m: int| 0 <= m && m + sep.len() <= s.len() implies !starts_with(
            #[trigger] s.skip(m),
            sep,
        ) by {}
        assert(split_sub(s, sep) == seq![s]);
        assert(sep_free(split_sub(s, sep)[0], sep));
    } else {
        lemma_split_parts_sep_free(s.skip(j + sep.len()), sep);
        let parts = split_sub(s, sep);
        assert(parts == seq![s.take(j)] + split_sub(s.skip(j + sep.len()), sep));
        assert forall|k: int| 0 <= k < parts.len() implies sep_free(#[trigger] parts[k], sep) by {
            if k == 0 {
                assert(parts[0] == s.take(j));
                assert forall|m: int| 0 <= m && m + sep.len() <= s.take(j).len() implies
                    !starts_with(#[trigger] s.take(j).skip(m), sep) by {
                    if starts_with(s.take(j).skip(m), sep) {
                        assert(s.take(j).skip(m).take(sep.len() as int) =~= s.skip(m).take(
                            sep.len() as int,
                        ));
                        assert(starts_with(s.skip(m), sep));
                    }
                }
            } else {
                assert(parts[k] == split_sub(s.skip(j + sep.len()), sep)[k - 1]);
            }
        }
    }
}

/// The first occurrence of the separator in a join stands exactly at the
/// end of the first part.
proof fn lemma_join_first_sub(parts: Seq<Seq<char>>, sep: Seq<char>)
    requires
        parts.len() >= 2,
        sep.len() > 0,
        no_self_overlap(sep),
        forall|k: int| 0 <= k < parts.len() ==> sep_free(#[trigger] parts[k], sep),
    ensures
        first_sub(join_seqs(parts, sep), sep) == parts[0].len(),
{
    let w = join_seqs(parts, sep);
    let p0 = parts[0];
    let l0 = p0.len() as int;
    assert(w == p0 + sep + join_seqs(parts.skip(1), sep));
    assert(w.len() >= l0 + sep.len());
    // there is an occurrence right after the first part
    assert(w.skip(l0).take(sep.len() as int) =~= sep);
    assert(starts_with(w.skip(l0), sep));
    // and none earlier
    assert forall|m: int| 0 <= m < l0 implies !starts_with(#[trigger] w.skip(m), sep) by {
        if starts_with(w.skip(m), sep) {
            if m + sep.len() <= l0 {
                assert(w.skip(m).take(sep.len() as int) =~= p0.skip(m).take(sep.len() as int));
                assert(starts_with(p0.skip(m), sep));
            } else {
                let a = l0 - m;
                assert(1 <= a < sep.len());
                assert forall|i: int| 0 <= i < sep.len() - a implies sep.skip(a)[i] == sep.take(
                    sep.len() - a,
                )[i] by {
                    assert(w.skip(m)[a + i] == sep[a + i]);
                    assert(w[l0 + i] == sep[i]);
                    assert(w.skip(m)[a + i] == w[l0 + i]);
                }
                assert(sep.skip(a) =~= sep.take(sep.len() - a));
            }
        }
    }
    lemma_first_sub(w, sep);
    let fs = first_sub(w, sep) as int;
    if fs < l0 {
        assert(fs + sep.len() <= w.len());
        assert(starts_with(w.skip(fs), sep));
    }
    if fs > l0 {
        assert(!starts_with(w.skip(l0), sep));
    }
}

/// Splitting a join on its separator gives back the parts, when no part
/// holds the separator and the separator cannot straddle a boundary.
pub proof fn lemma_split_join(parts: Seq<Seq<char>>, sep: Seq<char>)
    requires
        parts.len() >= 1,
        sep.len() > 0,
        no_self_overlap(sep),
        forall|k: int| 0 <= k < parts.len() ==> sep_free(#[trigger] parts[k], sep),
    ensures
        split_sub(join_seqs(parts, sep), sep) == parts,
    decreases parts.len(),
{
    let w = join_seqs(parts, sep);
    if parts.len() == 1 {
        assert(w == parts[0]);
        lemma_first_sub_of_sep_free(w, sep);
        assert(split_sub(w, sep) =~= parts);
    } else {
        lemma_join_first_sub(parts, sep);
        let l0 = parts[0].len() as int;
        assert(w == parts[0] + sep + join_seqs(parts.skip(1), sep));
        assert(w.take(l0) =~= parts[0]);
        assert(w.skip(l0 + sep.len()) =~= join_seqs(parts.skip(1), sep));
        assert forall|k: int| 0 <= k < parts.skip(1).len() implies sep_free(
            #[trigger] parts.skip(1)[k],
            sep,
        ) by {
            assert(parts.skip(1)[k] == parts[k + 1]);
        }
        lemma_split_join(parts.skip(1), sep);
        assert(split_sub(w, sep) == seq![w.take(l0)] + split_sub(w.skip(l0 + sep.len()), sep));
        assert(split_sub(w, sep) =~= parts);
    }
}

/// Every part a deduplication keeps is one of the input parts.
pub proof fn lemma_dedup_adj_subset(parts: Seq<Seq<char>>)
    ensures
        forall|k: int|
            0 <= k < dedup_adj(parts).len() ==> exists|m: int|
                0 <= m < parts.len() && #[trigger] dedup_adj(parts)[k] == parts[m],
        parts.len() > 0 ==> dedup_adj(parts).len() > 0,
    decreases parts.len(),
{
    if parts.len() <= 1 {
        let d = dedup_adj(parts);
        assert(d == parts);
        assert forall|k: int| 0 <= k < d.len() implies exists|m: int|
            0 <= m < parts.len() && #[trigger] d[k] == parts[m] by {
            assert(d[k] == parts[k]);
        }
    } else {
        lemma_dedup_adj_subset(parts.skip(1));
        let d = dedup_adj(parts);
        assert forall|k: int| 0 <= k < d.len() implies exists|m: int|
            0 <= m < parts.len() && #[trigger] d[k] == parts[m] by {
            if parts[0] == parts[1] {
                let m0 = choose|m0: int|
                    0 <= m0 < parts.skip(1).len() && #[trigger] dedup_adj(parts.skip(1))[k]
                        == parts.skip(1)[m0];
                assert(d[k] == parts[m0 + 1]);
            } else {
                if k == 0 {
                    assert(d[0] == parts[0]);
                } else {
                    let m0 = choose|m0: int|
                        0 <= m0 < parts.skip(1).len() && #[trigger] dedup_adj(parts.skip(1))[k - 1]
                            == parts.skip(1)[m0];
                    assert(d[k] == parts[m0 + 1]);
                }
            }
        }
    }
}

/// A subrange of a separator-free text is separator-free.
pub proof fn lemma_sep_free_subrange(p: Seq<char>, sep: Seq<char>, a: int, b: int)
    requires
        sep_free(p, sep),
        0 <= a <= b <= p.len(),
    ensures
        sep_free(p.subrange(a, b), sep),
{
    let q = p.subrange(a, b);
    assert forall|m: int| 0 <= m && m + sep.len() <= q.len() implies !starts_with(
        #[trigger] q.skip(m),
        sep,
    ) by {
        if starts_with(q.skip(m), sep) {
            assert(q.skip(m).take(sep.len() as int) =~= p.skip(a + m).take(sep.len() as int));
            assert(starts_with(p.skip(a + m), sep));
        }
    }
}

/// The start-trim of a text is one of its suffixes.
proof fn lemma_trim_start_subrange(s: Seq<char>)
    ensures
        exists|k: int| 0 <= k <= s.len() && trim_start(s) == #[trigger] s.skip(k),
    decreases s.len(),
{
    if s.len() > 0 && is_ws(s[0]) {
        lemma_trim_start_subrange(s.skip(1));
        let k = choose|k: int| 0 <= k <= s.skip(1).len() && trim_start(s.skip(1)) == #[trigger] s.skip(1).skip(k);
        assert(s.skip(1).skip(k) =~= s.skip(k + 1));
        assert(trim_start(s) == s.skip(k + 1));
    } else {
        assert(s.skip(0) =~= s);
        assert(trim_start(s) == s.skip(0));
    }
}

/// The end-trim of a text is one of its prefixes.
proof fn lemma_trim_end_subrange(s: Seq<char>)
    ensures
        exists|k: int| 0 <= k <= s.len() && trim_end(s) == #[trigger] s.take(k),
    decreases s.len(),
{
    if s.len() > 0 && is_ws(s[s.len() - 1]) {
        lemma_trim_end_subrange(s.take(s.len() - 1));
        let k = choose|k: int|
            0 <= k <= s.take(s.len() - 1).len() && trim_end(s.take(s.len() - 1)) == #[trigger] s.take(
                s.len() - 1,
            ).take(k);
        assert(s.take(s.len() - 1).take(k) =~= s.take(k));
        assert(trim_end(s) == s.take(k));
    } else {
        assert(s.take(s.len() as int) =~= s);
        assert(trim_end(s) == s.take(s.len() as int));
    }
}

/// Trimming keeps a text separator-free.
pub proof fn lemma_trim_sep_free(p: Seq<char>, sep: Seq<char>)
    requires
        sep_free(p, sep),
    ensures
        sep_free(trim_seq(p), sep),
{
    lemma_trim_start_subrange(p);
    let k = choose|k: int| 0 <= k <= p.len() && trim_start(p) == #[trigger] p.skip(k);
    assert(p.skip(k) =~= p.subrange(k, p.len() as int));
    lemma_sep_free_subrange(p, sep, k, p.len() as int);
    let q = trim_start(p);
    lemma_trim_end_subrange(q);
    let m = choose|m: int| 0 <= m <= q.len() && trim_end(q) == #[trigger] q.take(m);
    assert(q.take(m) =~= q.subrange(0, m));
    lemma_sep_free_subrange(q, sep, 0, m);
}

/// No character of a join comes from anywhere but its parts and its
/// separator.
pub proof fn lemma_join_chars(parts: Seq<Seq<char>>, sep: Seq<char>, c: char)
    requires
        forall|k: int, i: int|
            0 <= k < parts.len() && 0 <= i < parts[k].len() ==> #[trigger] parts[k][i] != c,
        forall|i: int| 0 <= i < sep.len() ==> sep[i] != c,
    ensures
        forall|i: int|
            0 <= i < join_seqs(parts, sep).len() ==> #[trigger] join_seqs(parts, sep)[i] != c,
    decreases parts.len(),
{
    if parts.len() >= 2 {
        assert forall|k: int, i: int|
            0 <= k < parts.skip(1).len() && 0 <= i < parts.skip(1)[k].len() implies #[trigger] parts.skip(
            1,
        )[k][i] != c by {
            assert(parts.skip(1)[k] == parts[k + 1]);
        }
        lemma_join_chars(parts.skip(1), sep, c);
        let w = join_seqs(parts, sep);
        assert forall|i: int| 0 <= i < w.len() implies #[trigger] w[i] != c by {
            let l0 = parts[0].len() as int;
            if i < l0 {
                assert(w[i] == parts[0][i]);
            } else if i < l0 + sep.len() {
                assert(w[i] == sep[i - l0]);
            } else {
                assert(w[i] == join_seqs(parts.skip(1), sep)[i - l0 - sep.len()]);
            }
        }
    } else if parts.len() == 1 {
        assert forall|i: int| 0 <= i < join_seqs(parts, sep).len() implies #[trigger] join_seqs(
            parts,
            sep,
        )[i] != c by {
            assert(join_seqs(parts, sep)[i] == parts[0][i]);
        }
    }
}

/// For a one-character separator, separator-freedom is just the absence of
/// that character.
pub proof fn lemma_sep_free_single(p: Seq<char>, c: char)
    ensures
        sep_free(p, seq![c]) <==> (forall|i: int| 0 <= i < p.len() ==> #[trigger] p[i] != c),
{
    if sep_free(p, seq![c]) {
        assert forall|i: int| 0 <= i < p.len() implies #[trigger] p[i] != c by {
            if p[i] == c {
                assert(p.skip(i).take(1) =~= seq![c]);
                assert(starts_with(p.skip(i), seq![c]));
            }
        }
    }
    if forall|i: int| 0 <= i < p.len() ==> #[trigger] p[i] != c {
        assert forall|m: int| 0 <= m && m + 1 <= p.len() implies !starts_with(
            #[trigger] p.skip(m),
            seq![c],
        ) by {
            if starts_with(p.skip(m), seq![c]) {
                assert(p.skip(m).take(1)[0] == c);
                assert(p[m] == c);
            }
        }
    }
}

/// No character appears in a split part that was not in the text.
pub proof fn lemma_split_parts_no_char(s: Seq<char>, sep: Seq<char>, c: char)
    requires
        sep.len() > 0,
        forall|i: int| 0 <= i < s.len() ==> #[trigger] s[i] != c,
    ensures
        forall|k: int, i: int|
            0 <= k < split_sub(s, sep).len() && 0 <= i < split_sub(s, sep)[k].len()
                ==> #[trigger] split_sub(s, sep)[k][i] != c,
    decreases s.len(),
{
    lemma_first_sub(s, sep);
    let j = first_sub(s, sep) as int;
    let parts = split_sub(s, sep);
    if j + sep.len() > s.len() {
        assert forall|k: int, i: int|
            0 <= k < parts.len() && 0 <= i < parts[k].len() implies #[trigger] parts[k][i]
            != c by {
            assert(parts[k] == s);
        }
    } else {
        assert forall|i: int| 0 <= i < s.skip(j + sep.len()).len() implies #[trigger] s.skip(
            j + sep.len(),
        )[i] != c by {
            assert(s.skip(j + sep.len())[i] == s[j + sep.len() + i]);
        }
        lemma_split_parts_no_char(s.skip(j + sep.len()), sep, c);
        assert forall|k: int, i: int|
            0 <= k < parts.len() && 0 <= i < parts[k].len() implies #[trigger] parts[k][i]
            != c by {
            if k == 0 {
                assert(parts[0] == s.take(j));
                assert(parts[0][i] == s[i]);
            } else {
                assert(parts[k] == split_sub(s.skip(j + sep.len()), sep)[k - 1]);
            }
        }
    }
}

} // verus!
