//! Character-level text model: whitespace, trimming, line splitting and the
//! candidate list derived from a block of text.
use vstd::prelude::*;

verus! {

/// Unicode `White_Space`, the set that `char::is_whitespace` and `str::trim` use.
pub open spec fn is_space(c: char) -> bool {
    let u = c as u32;
    (0x9 <= u && u <= 0xd) || u == 0x20 || u == 0x85 || u == 0xa0 || u == 0x1680 || (0x2000 <= u
        && u <= 0x200a) || u == 0x2028 || u == 0x2029 || u == 0x202f || u == 0x205f || u == 0x3000
}

/// Drops the whitespace at the front.
pub open spec fn trim_start(s: Seq<char>) -> Seq<char>
    decreases s.len(),
{
    if s.len() > 0 && is_space(s[0]) {
        trim_start(s.drop_first())
    } else {
        s
    }
}

/// Drops the whitespace at the back.
pub open spec fn trim_end(s: Seq<char>) -> Seq<char>
    decreases s.len(),
{
    if s.len() > 0 && is_space(s.last()) {
        trim_end(s.drop_last())
    } else {
        s
    }
}

/// Drops the whitespace at both ends.
pub open spec fn trim(s: Seq<char>) -> Seq<char> {
    trim_end(trim_start(s))
}

pub fn is_space_char(c: char) -> (r: bool)
    ensures
        r == is_space(c),
{
    let u = c as u32;
    (0x9 <= u && u <= 0xd) || u == 0x20 || u == 0x85 || u == 0xa0 || u == 0x1680 || (0x2000 <= u
        && u <= 0x200a) || u == 0x2028 || u == 0x2029 || u == 0x202f || u == 0x205f || u == 0x3000
}

proof fn lemma_trim_start_skip(s: Seq<char>, i: int)
    requires
        0 <= i <= s.len(),
        forall|k: int| 0 <= k < i ==> is_space(#[trigger] s[k]),
    ensures
        trim_start(s) == trim_start(s.subrange(i, s.len() as int)),
    decreases i,
{
    if i > 0 {
        assert(s.drop_first().subrange(i - 1, s.drop_first().len() as int) =~= s.subrange(
            i,
            s.len() as int,
        ));
        lemma_trim_start_skip(s.drop_first(), i - 1);
    } else {
        assert(s.subrange(0, s.len() as int) =~= s);
    }
}

proof fn lemma_trim_end_skip(s: Seq<char>, j: int)
    requires
        0 <= j <= s.len(),
        forall|k: int| j <= k < s.len() ==> is_space(#[trigger] s[k]),
    ensures
        trim_end(s) == trim_end(s.subrange(0, j)),
    decreases s.len() - j,
{
    if j < s.len() {
        assert(s.drop_last().subrange(0, j) =~= s.subrange(0, j));
        lemma_trim_end_skip(s.drop_last(), j);
    } else {
        assert(s.subrange(0, j) =~= s);
    }
}

/// The bounds `(start, end)` of the trimmed part of `s[from..to]`.
pub fn trim_bounds(s: &Vec<char>, from: usize, to: usize) -> (r: (usize, usize))
    requires
        from <= to <= s.len(),
    ensures
        from <= r.0 <= r.1 <= to,
        s@.subrange(r.0 as int, r.1 as int) == trim(s@.subrange(from as int, to as int)),
{
    let ghost part = s@.subrange(from as int, to as int);
    let mut start: usize = from;
    while start < to && is_space_char(s[start])
        invariant
            from <= start <= to <= s.len(),
            forall|k: int| from <= k < start ==> is_space(#[trigger] s@[k]),
        decreases to - start,
    {
        start = start + 1;
    }
    let ghost rest = s@.subrange(start as int, to as int);
    proof {
        assert forall|k: int| 0 <= k < start - from implies is_space(#[trigger] part[k]) by {
            assert(part[k] == s@[from + k]);
        }
        lemma_trim_start_skip(part, start - from);
        assert(part.subrange(start - from, part.len() as int) =~= rest);
    }
    let mut end: usize = to;
    while end > start && is_space_char(s[end - 1])
        invariant
            from <= start <= end <= to <= s.len(),
            rest == s@.subrange(start as int, to as int),
            forall|k: int| end <= k < to ==> is_space(#[trigger] s@[k]),
        decreases end,
    {
        end = end - 1;
    }
    proof {
        assert forall|k: int| end - start <= k < rest.len() implies is_space(#[trigger] rest[k]) by {
            assert(rest[k] == s@[start + k]);
        }
        lemma_trim_end_skip(rest, end - start);
        assert(rest.subrange(0, end - start) =~= s@.subrange(start as int, end as int));
    }
    (start, end)
}

/// The text cut at every `'\n'`; the last piece is what follows the last break.
pub open spec fn lines_of(s: Seq<char>) -> Seq<Seq<char>>
    decreases s.len(),
{
    if s.len() == 0 {
        seq![Seq::empty()]
    } else {
        let init = lines_of(s.drop_last());
        if s.last() == '\n' {
            init.push(Seq::empty())
        } else {
            init.update(init.len() - 1, init.last().push(s.last()))
        }
    }
}

/// The trimmed lines that are not empty, in their order.
pub open spec fn candidates(ls: Seq<Seq<char>>) -> Seq<Seq<char>>
    decreases ls.len(),
{
    if ls.len() == 0 {
        Seq::empty()
    } else {
        let init = candidates(ls.drop_last());
        if trim(ls.last()).len() == 0 {
            init
        } else {
            init.push(trim(ls.last()))
        }
    }
}

/// The command candidates of a block of text: its lines, trimmed, without
/// the empty ones. A `'\r'` before a break is whitespace and goes with the trim.
pub open spec fn parse(s: Seq<char>) -> Seq<Seq<char>> {
    candidates(lines_of(s))
}

/// What a list of strings holds, as character sequences.
pub open spec fn strings_view(v: Seq<String>) -> Seq<Seq<char>> {
    v.map_values(|x: String| x@)
}

pub proof fn lemma_lines_of_nonempty(s: Seq<char>)
    ensures
        lines_of(s).len() >= 1,
    decreases s.len(),
{
    if s.len() > 0 {
        lemma_lines_of_nonempty(s.drop_last());
    }
}

/// Relies on `String::push`: appends the character at the end.
#[verifier::external_body]
pub(crate) fn push_char(s: &mut String, c: char)
    ensures
        final(s)@ == old(s)@.push(c),
{
    s.push(c)
}

/// A string holding `v[from..to]`.
pub fn string_from_chars(v: &Vec<char>, from: usize, to: usize) -> (r: String)
    requires
        from <= to <= v.len(),
    ensures
        r@ == v@.subrange(from as int, to as int),
{
    let mut r = String::new();
    let mut i: usize = from;
    while i < to
        invariant
            from <= i <= to <= v.len(),
            r@ == v@.subrange(from as int, i as int),
        decreases to - i,
    {
        push_char(&mut r, v[i]);
        assert(v@.subrange(from as int, i + 1) =~= v@.subrange(from as int, i as int).push(v@[i as int]));
        i = i + 1;
    }
    r
}

/// The characters of `s`, one per element.
pub fn chars_of(s: &str) -> (r: Vec<char>)
    ensures
        r@ == s@,
{
    let mut r: Vec<char> = Vec::new();
    for c in it: s.chars()
        invariant
            r@ == it.seq().subrange(0, it.index() as int),
    {
        r.push(c);
    }
    r
}


/// The command candidates of `input`: its lines, trimmed, the empty ones dropped.
pub fn parse_lines(input: &str) -> (r: Vec<String>)
    ensures
        strings_view(r@) == parse(input@),
{
    let v = chars_of(input);
    let mut out: Vec<String> = Vec::new();
    let mut line_start: usize = 0;
    let mut i: usize = 0;
    assert(v@.subrange(0, 0) =~= Seq::<char>::empty());
    while i < v.len()
        invariant
            line_start <= i <= v.len(),
            v@ == input@,
            lines_of(v@.subrange(0, i as int)).len() >= 1,
            lines_of(v@.subrange(0, i as int)).last() == v@.subrange(line_start as int, i as int),
            strings_view(out@) == candidates(lines_of(v@.subrange(0, i as int)).drop_last()),
        decreases v.len() - i,
    {
        let ghost ls = lines_of(v@.subrange(0, i as int));
        let ghost p = v@.subrange(0, i as int + 1);
        assert(p.drop_last() =~= v@.subrange(0, i as int));
        if v[i] == '\n' {
            let (a, b) = trim_bounds(&v, line_start, i);
            if a < b {
                let t = string_from_chars(&v, a, b);
                out.push(t);
            }
            assert(strings_view(out@) =~= candidates(ls));
            assert(lines_of(p).drop_last() =~= ls);
            line_start = i + 1;
        } else {
            assert(lines_of(p).drop_last() =~= ls.drop_last());
            assert(v@.subrange(line_start as int, i + 1) =~= ls.last().push(v@[i as int]));
        }
        i = i + 1;
    }
    let (a, b) = trim_bounds(&v, line_start, i);
    if a < b {
        let t = string_from_chars(&v, a, b);
        out.push(t);
    }
    assert(v@.subrange(0, i as int) =~= input@);
    assert(strings_view(out@) =~= parse(input@));
    out
}


/// The items written one per line, with a `'\n'` between two neighbours.
pub open spec fn join_lines(xs: Seq<Seq<char>>) -> Seq<char>
    decreases xs.len(),
{
    if xs.len() == 0 {
        Seq::empty()
    } else if xs.len() == 1 {
        xs[0]
    } else {
        join_lines(xs.drop_last()) + seq!['\n'] + xs.last()
    }
}

pub open spec fn has_no_break(x: Seq<char>) -> bool {
    forall|k: int| 0 <= k < x.len() ==> x[k] != '\n'
}

/// A well-formed candidate: not empty, no whitespace at either end, no line break.
pub open spec fn is_candidate(x: Seq<char>) -> bool {
    &&& x.len() > 0
    &&& !is_space(x[0])
    &&& !is_space(x.last())
    &&& has_no_break(x)
}

proof fn lemma_trim_start_suffix(s: Seq<char>)
    ensures
        trim_start(s).len() <= s.len(),
        trim_start(s) == s.subrange(s.len() - trim_start(s).len(), s.len() as int),
        trim_start(s).len() > 0 ==> !is_space(trim_start(s)[0]),
    decreases s.len(),
{
    if s.len() > 0 && is_space(s[0]) {
        lemma_trim_start_suffix(s.drop_first());
        assert(s.drop_first().subrange(
            s.drop_first().len() - trim_start(s).len(),
            s.drop_first().len() as int,
        ) =~= s.subrange(s.len() - trim_start(s).len(), s.len() as int));
    } else {
        assert(s.subrange(0, s.len() as int) =~= s);
    }
}

proof fn lemma_trim_end_prefix(s: Seq<char>)
    ensures
        trim_end(s).len() <= s.len(),
        trim_end(s) == s.subrange(0, trim_end(s).len() as int),
        trim_end(s).len() > 0 ==> !is_space(trim_end(s).last()),
    decreases s.len(),
{
    if s.len() > 0 && is_space(s.last()) {
        lemma_trim_end_prefix(s.drop_last());
        assert(s.drop_last().subrange(0, trim_end(s).len() as int) =~= s.subrange(
            0,
            trim_end(s).len() as int,
        ));
    } else {
        assert(s.subrange(0, s.len() as int) =~= s);
    }
}

/// A trimmed line that is not empty is a candidate.
proof fn lemma_trim_candidate(x: Seq<char>)
    requires
        has_no_break(x),
        trim(x).len() > 0,
    ensures
        is_candidate(trim(x)),
{
    let z = trim_start(x);
    lemma_trim_start_suffix(x);
    lemma_trim_end_prefix(z);
    let t = trim(x);
    assert forall|k: int| 0 <= k < t.len() implies t[k] != '\n' by {
        assert(t[k] == z[k]);
        assert(z[k] == x[x.len() - z.len() + k]);
    }
    assert(t[0] == z[0]);
}

/// A candidate is its own trim.
proof fn lemma_trim_candidate_fixed(x: Seq<char>)
    requires
        is_candidate(x),
    ensures
        trim(x) == x,
{
    assert(trim_start(x) == x);
}

proof fn lemma_lines_no_break(s: Seq<char>)
    ensures
        forall|i: int| 0 <= i < lines_of(s).len() ==> has_no_break(#[trigger] lines_of(s)[i]),
    decreases s.len(),
{
    lemma_lines_of_nonempty(s);
    if s.len() > 0 {
        lemma_lines_no_break(s.drop_last());
        lemma_lines_of_nonempty(s.drop_last());
        let init = lines_of(s.drop_last());
        if s.last() != '\n' {
            let l = init.last().push(s.last());
            assert(has_no_break(init[init.len() - 1]));
            assert forall|k: int| 0 <= k < l.len() implies l[k] != '\n' by {
                if k < l.len() - 1 {
                    assert(l[k] == init[init.len() - 1][k]);
                }
            }
        }
    }
}

proof fn lemma_candidates_well_formed(ls: Seq<Seq<char>>)
    requires
        forall|i: int| 0 <= i < ls.len() ==> has_no_break(#[trigger] ls[i]),
    ensures
        forall|i: int|
            0 <= i < candidates(ls).len() ==> is_candidate(#[trigger] candidates(ls)[i]),
    decreases ls.len(),
{
    if ls.len() > 0 {
        lemma_candidates_well_formed(ls.drop_last());
        assert(has_no_break(ls[ls.len() - 1]));
        let init = candidates(ls.drop_last());
        if trim(ls.last()).len() > 0 {
            lemma_trim_candidate(ls.last());
        }
        assert forall|i: int| 0 <= i < candidates(ls).len() implies is_candidate(
            #[trigger] candidates(ls)[i],
        ) by {
            if i < init.len() {
                assert(candidates(ls)[i] == init[i]);
            }
        }
    }
}

/// Every item of `parse(s)` is a candidate.
pub proof fn lemma_parse_well_formed(s: Seq<char>)
    ensures
        forall|i: int| 0 <= i < parse(s).len() ==> is_candidate(#[trigger] parse(s)[i]),
{
    lemma_lines_no_break(s);
    lemma_candidates_well_formed(lines_of(s));
}

proof fn lemma_lines_append_plain(a: Seq<char>, b: Seq<char>)
    requires
        has_no_break(b),
    ensures
        lines_of(a + b) == lines_of(a).update(
            lines_of(a).len() - 1,
            lines_of(a).last() + b,
        ),
    decreases b.len(),
{
    lemma_lines_of_nonempty(a);
    if b.len() == 0 {
        assert(a + b =~= a);
        assert(lines_of(a).last() + b =~= lines_of(a).last());
        assert(lines_of(a).update(lines_of(a).len() - 1, lines_of(a).last()) =~= lines_of(a));
    } else {
        let b0 = b.drop_last();
        assert((a + b).drop_last() =~= a + b0);
        assert((a + b).last() == b.last());
        assert(has_no_break(b0)) by {
            assert forall|k: int| 0 <= k < b0.len() implies b0[k] != '\n' by {
                assert(b0[k] == b[k]);
            }
        }
        assert(b.last() != '\n') by {
            assert(b.last() == b[b.len() - 1]);
        }
        lemma_lines_append_plain(a, b0);
        assert((lines_of(a).last() + b0).push(b.last()) =~= lines_of(a).last() + b);
        assert(lines_of(a + b) =~= lines_of(a).update(
            lines_of(a).len() - 1,
            lines_of(a).last() + b,
        ));
    }
}

proof fn lemma_lines_of_join(xs: Seq<Seq<char>>)
    requires
        xs.len() >= 1,
        forall|i: int| 0 <= i < xs.len() ==> has_no_break(#[trigger] xs[i]),
    ensures
        lines_of(join_lines(xs)) == xs,
    decreases xs.len(),
{
    let e = Seq::<char>::empty();
    if xs.len() == 1 {
        assert(has_no_break(xs[0]));
        lemma_lines_append_plain(e, xs[0]);
        assert(e + xs[0] =~= xs[0]);
        assert(e + xs[0] =~= join_lines(xs));
        assert(lines_of(e) =~= seq![e]);
        assert(lines_of(join_lines(xs)) =~= xs);
    } else {
        let init = xs.drop_last();
        lemma_lines_of_join(init);
        let a = join_lines(init) + seq!['\n'];
        assert(a.drop_last() =~= join_lines(init));
        assert(lines_of(a) =~= init.push(e));
        assert(has_no_break(xs[xs.len() - 1]));
        lemma_lines_append_plain(a, xs.last());
        assert(e + xs.last() =~= xs.last());
        assert(lines_of(join_lines(xs)) =~= xs);
    }
}

proof fn lemma_candidates_of_candidates(xs: Seq<Seq<char>>)
    requires
        forall|i: int| 0 <= i < xs.len() ==> is_candidate(#[trigger] xs[i]),
    ensures
        candidates(xs) == xs,
    decreases xs.len(),
{
    if xs.len() > 0 {
        lemma_candidates_of_candidates(xs.drop_last());
        assert(is_candidate(xs[xs.len() - 1]));
        lemma_trim_candidate_fixed(xs.last());
        assert(xs.drop_last().push(xs.last()) =~= xs);
    }
}

/// Parsing is idempotent: the candidates of `s`, written one per line and
/// parsed again, are the same candidates.
pub proof fn lemma_parse_idempotent(s: Seq<char>)
    ensures
        parse(join_lines(parse(s))) == parse(s),
{
    let xs = parse(s);
    lemma_parse_well_formed(s);
    if xs.len() == 0 {
        assert(lines_of(Seq::<char>::empty()) =~= seq![Seq::<char>::empty()]);
        let e = Seq::<char>::empty();
        assert(seq![e].drop_last() =~= Seq::<Seq<char>>::empty());
        assert(trim_start(e) == e);
        assert(trim(e) == e);
        assert(seq![e].last() == e);
        assert(candidates(Seq::<Seq<char>>::empty()) =~= Seq::<Seq<char>>::empty());
        assert(candidates(seq![e]) =~= Seq::<Seq<char>>::empty());
    } else {
        lemma_lines_of_join(xs);
        lemma_candidates_of_candidates(xs);
    }
}


/// Whether `pat` occurs in `v` at index `i`.
pub open spec fn occurs_at(v: Seq<char>, i: int, pat: Seq<char>) -> bool {
    0 <= i && i + pat.len() <= v.len() && v.subrange(i, i + pat.len()) == pat
}

pub fn matches_at(v: &Vec<char>, i: usize, pat: &Vec<char>) -> (r: bool)
    ensures
        r == occurs_at(v@, i as int, pat@),
{
    if i > v.len() || pat.len() > v.len() - i {
        return false;
    }
    let mut k: usize = 0;
    while k < pat.len()
        invariant
            i + pat.len() <= v.len(),
            k <= pat.len(),
            forall|j: int| 0 <= j < k ==> v@[i + j] == pat@[j],
        decreases pat.len() - k,
    {
        if v[i + k] != pat[k] {
            assert(v@.subrange(i as int, i + pat.len())[k as int] != pat@[k as int]);
            return false;
        }
        k = k + 1;
    }
    assert(v@.subrange(i as int, i + pat.len()) =~= pat@);
    true
}

/// Whether the two texts are the same.
pub fn str_eq(a: &str, b: &str) -> (r: bool)
    ensures
        r == (a@ == b@),
{
    let va = chars_of(a);
    let vb = chars_of(b);
    if va.len() != vb.len() {
        return false;
    }
    let r = matches_at(&va, 0, &vb);
    assert(va@.subrange(0, va.len() as int) =~= va@);
    r
}

/// `s` without `suffix` at its end, where it ends with it.
pub open spec fn strip_suffix(s: Seq<char>, suffix: Seq<char>) -> Seq<char> {
    if occurs_at(s, s.len() - suffix.len(), suffix) {
        s.subrange(0, s.len() - suffix.len())
    } else {
        s
    }
}

/// `s` without `prefix` at its start, where it starts with it.
pub open spec fn strip_prefix(s: Seq<char>, prefix: Seq<char>) -> Seq<char> {
    if occurs_at(s, 0, prefix) {
        s.subrange(prefix.len() as int, s.len() as int)
    } else {
        s
    }
}

pub fn strip_suffix_of(s: &str, suffix: &str) -> (r: String)
    ensures
        r@ == strip_suffix(s@, suffix@),
{
    let v = chars_of(s);
    let w = chars_of(suffix);
    if w.len() <= v.len() && matches_at(&v, v.len() - w.len(), &w) {
        string_from_chars(&v, 0, v.len() - w.len())
    } else {
        let n = v.len();
        assert(v@.subrange(0, n as int) =~= v@);
        string_from_chars(&v, 0, n)
    }
}

pub fn strip_prefix_of(s: &str, prefix: &str) -> (r: String)
    ensures
        r@ == strip_prefix(s@, prefix@),
{
    let v = chars_of(s);
    let w = chars_of(prefix);
    let n = v.len();
    if matches_at(&v, 0, &w) {
        string_from_chars(&v, w.len(), n)
    } else {
        assert(v@.subrange(0, n as int) =~= v@);
        string_from_chars(&v, 0, n)
    }
}

/// The items with `sep` between two neighbours.
pub open spec fn join_with(xs: Seq<Seq<char>>, sep: Seq<char>) -> Seq<char>
    decreases xs.len(),
{
    if xs.len() == 0 {
        Seq::empty()
    } else if xs.len() == 1 {
        xs[0]
    } else {
        join_with(xs.drop_last(), sep) + sep + xs.last()
    }
}

/// `v[from..]` joined with `sep`.
pub fn join_from(v: &Vec<String>, from: usize, sep: &str) -> (r: String)
    requires
        from <= v.len(),
    ensures
        r@ == join_with(strings_view(v@).subrange(from as int, v.len() as int), sep@),
{
    let ghost xs = strings_view(v@);
    let mut r = String::new();
    let mut i: usize = from;
    assert(xs.subrange(from as int, from as int) =~= Seq::<Seq<char>>::empty());
    while i < v.len()
        invariant
            from <= i <= v.len(),
            xs == strings_view(v@),
            r@ == join_with(xs.subrange(from as int, i as int), sep@),
        decreases v.len() - i,
    {
        let ghost part = xs.subrange(from as int, i + 1);
        assert(part.drop_last() =~= xs.subrange(from as int, i as int));
        if i > from {
            r.append(sep);
        } else {
            assert(r@ + v@[i as int]@ =~= v@[i as int]@);
        }
        r.append(v[i].as_str());
        i = i + 1;
    }
    r
}

/// `s` with each occurrence of `pat`, taken from the left without overlap,
/// replaced by `rep`.
pub open spec fn replace_all(s: Seq<char>, pat: Seq<char>, rep: Seq<char>) -> Seq<char>
    decreases s.len(),
{
    if s.len() == 0 {
        Seq::empty()
    } else if pat.len() > 0 && occurs_at(s, 0, pat) {
        rep + replace_all(s.subrange(pat.len() as int, s.len() as int), pat, rep)
    } else {
        seq![s[0]] + replace_all(s.drop_first(), pat, rep)
    }
}

pub fn replace_all_of(s: &str, pat: &str, rep: &str) -> (r: String)
    requires
        pat@.len() > 0,
    ensures
        r@ == replace_all(s@, pat@, rep@),
{
    let v = chars_of(s);
    let w = chars_of(pat);
    let n = v.len();
    let mut r = String::new();
    let mut i: usize = 0;
    assert(v@.subrange(0, n as int) =~= v@);
    while i < n
        invariant
            i <= n == v.len(),
            w@ == pat@,
            w.len() > 0,
            r@ + replace_all(v@.subrange(i as int, n as int), pat@, rep@) == replace_all(
                s@,
                pat@,
                rep@,
            ),
            v@ == s@,
        decreases n - i,
    {
        let ghost rest = v@.subrange(i as int, n as int);
        let ghost r0 = r@;
        if matches_at(&v, i, &w) {
            assert(rest.subrange(0, w.len() as int) =~= v@.subrange(i as int, i + w.len()));
            assert(rest.subrange(w.len() as int, rest.len() as int) =~= v@.subrange(
                i + w.len(),
                n as int,
            ));
            assert(occurs_at(rest, 0, pat@));
            r.append(rep);
            let ghost tail = replace_all(v@.subrange(i + w.len(), n as int), pat@, rep@);
            assert(r@ + tail =~= r0 + (rep@ + tail));
            i = i + w.len();
        } else {
            assert(!occurs_at(rest, 0, pat@)) by {
                if occurs_at(rest, 0, pat@) {
                    assert(rest.subrange(0, w.len() as int) =~= v@.subrange(
                        i as int,
                        i + w.len(),
                    ));
                }
            }
            assert(rest.drop_first() =~= v@.subrange(i + 1, n as int));
            push_char(&mut r, v[i]);
            let ghost tail = replace_all(rest.drop_first(), pat@, rep@);
            assert(r@ + tail =~= r0 + (seq![rest[0]] + tail));
            i = i + 1;
        }
    }
    assert(r@ + Seq::<char>::empty() =~= r@);
    r
}


proof fn lemma_lines_concat(x: Seq<char>, b: Seq<char>)
    ensures
        lines_of(x + b) == lines_of(x).drop_last() + seq![lines_of(x).last() + lines_of(b)[0]]
            + lines_of(b).drop_first(),
    decreases b.len(),
{
    lemma_lines_of_nonempty(x);
    lemma_lines_of_nonempty(b);
    let lx = lines_of(x);
    if b.len() == 0 {
        assert(x + b =~= x);
        assert(lines_of(b) =~= seq![Seq::<char>::empty()]);
        assert(lx.last() + Seq::<char>::empty() =~= lx.last());
        assert(lx.drop_last() + seq![lx.last()] + Seq::<Seq<char>>::empty() =~= lx);
        assert(lines_of(b).drop_first() =~= Seq::<Seq<char>>::empty());
    } else {
        let b0 = b.drop_last();
        let c = b.last();
        assert((x + b).drop_last() =~= x + b0);
        assert((x + b).last() == c);
        lemma_lines_concat(x, b0);
        lemma_lines_of_nonempty(b0);
        let m0 = lines_of(b0);
        let m = lines_of(b);
        if c == '\n' {
            assert(m =~= m0.push(Seq::<char>::empty()));
            assert(m.drop_first() =~= m0.drop_first().push(Seq::<char>::empty()));
            assert(lines_of(x + b) =~= lx.drop_last() + seq![lx.last() + m[0]] + m.drop_first());
        } else {
            assert(m =~= m0.update(m0.len() - 1, m0.last().push(c)));
            if m0.len() == 1 {
                assert(lx.last() + m0[0].push(c) =~= (lx.last() + m0[0]).push(c));
                assert(m.drop_first() =~= Seq::<Seq<char>>::empty());
                assert(m0.drop_first() =~= Seq::<Seq<char>>::empty());
            } else {
                assert(m.drop_first() =~= m0.drop_first().update(
                    m0.len() - 2,
                    m0.last().push(c),
                ));
            }
            assert(lines_of(x + b) =~= lx.drop_last() + seq![lx.last() + m[0]] + m.drop_first());
        }
    }
}

proof fn lemma_candidates_concat(p: Seq<Seq<char>>, q: Seq<Seq<char>>)
    ensures
        candidates(p + q) == candidates(p) + candidates(q),
    decreases q.len(),
{
    if q.len() == 0 {
        assert(p + q =~= p);
        assert(candidates(p) + candidates(q) =~= candidates(p));
    } else {
        assert((p + q).drop_last() =~= p + q.drop_last());
        assert((p + q).last() == q.last());
        lemma_candidates_concat(p, q.drop_last());
        assert(candidates(p + q) =~= candidates(p) + candidates(q));
    }
}

proof fn lemma_trim_start_push(l: Seq<char>, c: char)
    ensures
        trim_start(l.push(c)) == if trim_start(l).len() == 0 {
            trim_start(seq![c])
        } else {
            trim_start(l).push(c)
        },
    decreases l.len(),
{
    if l.len() == 0 {
        assert(l.push(c) =~= seq![c]);
    } else if is_space(l[0]) {
        assert(l.push(c).drop_first() =~= l.drop_first().push(c));
        lemma_trim_start_push(l.drop_first(), c);
    }
}

/// A whitespace character at the end of a line does not change its trim.
proof fn lemma_trim_push_space(l: Seq<char>, c: char)
    requires
        is_space(c),
    ensures
        trim(l.push(c)) == trim(l),
{
    lemma_trim_start_push(l, c);
    let z = trim_start(l);
    let e = Seq::<char>::empty();
    if z.len() == 0 {
        assert(seq![c].drop_first() =~= e);
        assert(trim_start(seq![c]) == trim_start(e));
    } else {
        assert(z.push(c).drop_last() =~= z);
    }
}

/// A line break written `\r\n` gives the same candidates as one written `\n`.
pub proof fn lemma_crlf_same_as_lf(a: Seq<char>, b: Seq<char>)
    ensures
        parse(a + seq!['\r', '\n'] + b) == parse(a + seq!['\n'] + b),
{
    let e = Seq::<char>::empty();
    let x1 = a + seq!['\r', '\n'];
    let x2 = a + seq!['\n'];
    lemma_lines_of_nonempty(a);
    let la = lines_of(a);
    let l = la.last();
    assert(x1.drop_last() =~= a.push('\r'));
    assert(a.push('\r').drop_last() =~= a);
    assert(x2.drop_last() =~= a);
    let lr = la.update(la.len() - 1, l.push('\r'));
    assert((a.push('\r')).last() == '\r');
    assert(lines_of(a.push('\r')) == lr);
    assert(x1.last() == '\n');
    assert(x2.last() == '\n');
    assert(lines_of(x1) =~= lr.push(e));
    assert(lines_of(x2) =~= la.push(e));
    lemma_lines_concat(x1, b);
    lemma_lines_concat(x2, b);
    lemma_lines_of_nonempty(b);
    let mb = lines_of(b);
    let tail = seq![e + mb[0]] + mb.drop_first();
    assert(lines_of(x1 + b) =~= lr + tail);
    assert(lines_of(x2 + b) =~= la + tail);
    lemma_candidates_concat(lr, tail);
    lemma_candidates_concat(la, tail);
    assert(lr.drop_last() =~= la.drop_last());
    assert(lr.last() == l.push('\r'));
    lemma_trim_push_space(l, '\r');
    assert(candidates(lr) == candidates(la));
}

} // verus!
