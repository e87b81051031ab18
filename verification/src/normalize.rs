//! Text normalizer for subtitle content.
//!
//! Raw subtitle text carries markup tags, numeric index lines, timing-cue
//! lines and punctuation noise that would spoil a lexical comparison. The
//! normalizer removes markup tags, blanks every line that is solely a numeric
//! index or contains a time-range marker (`-->`), drops every character
//! outside the set {letters, digits, space, `?`, `.`, `,`, `!`, newline}
//! (which also covers list dashes and carriage returns), and finally collapses
//! every run of spaces and newlines into a single space, trimming the ends.

use vstd::prelude::*;

verus! {

/// A character that survives the character filter.
pub open spec fn allowed_char(c: char) -> bool {
    ('a' <= c && c <= 'z') || ('A' <= c && c <= 'Z') || ('0' <= c && c <= '9') || c == ' ' || c
        == '?' || c == '.' || c == ',' || c == '!' || c == '\n'
}

/// A decimal digit.
pub open spec fn is_digit(c: char) -> bool {
    '0' <= c && c <= '9'
}

/// A character that the whitespace collapser treats as a break.
pub open spec fn is_break(c: char) -> bool {
    c == ' ' || c == '\n'
}

/// The position of the first occurrence of `c` in `s`, if any.
pub open spec fn find_index(s: Seq<char>, c: char) -> Option<int>
    decreases s.len(),
{
    if s.len() == 0 {
        None
    } else if s[0] == c {
        Some(0int)
    } else {
        match find_index(s.skip(1), c) {
            Some(i) => Some(i + 1),
            None => None,
        }
    }
}

/// `find_index` returns the first occurrence: the index holds `c` and nothing
/// before it does; `None` means `c` does not occur at all.
pub proof fn lemma_find_index(s: Seq<char>, c: char)
    ensures
        match find_index(s, c) {
            Some(i) => 0 <= i < s.len() && s[i] == c && forall|j: int| 0 <= j < i ==> s[j] != c,
            None => forall|j: int| 0 <= j < s.len() ==> s[j] != c,
        },
    decreases s.len(),
{
    if s.len() == 0 {
    } else if s[0] == c {
    } else {
        let t = s.skip(1);
        lemma_find_index(t, c);
        assert(forall|j: int| 1 <= j < s.len() ==> s[j] == t[j - 1]);
        match find_index(t, c) {
            Some(i) => {
                assert(forall|j: int| 0 <= j < i + 1 ==> s[j] != c);
            },
            None => {
                assert(forall|j: int| 0 <= j < s.len() ==> s[j] != c);
            },
        }
    }
}

/// Removes markup tags: every segment from a `<` to the next `>` disappears.
/// A `<` with no closing `>` is kept (the character filter removes it later).
pub open spec fn strip_tags_spec(s: Seq<char>) -> Seq<char>
    decreases s.len(),
    via strip_tags_spec_dec
{
    if s.len() == 0 {
        Seq::<char>::empty()
    } else if s[0] == '<' {
        match find_index(s, '>') {
            Some(i) => strip_tags_spec(s.skip(i + 1)),
            None => seq![s[0]] + strip_tags_spec(s.skip(1)),
        }
    } else {
        seq![s[0]] + strip_tags_spec(s.skip(1))
    }
}

#[via_fn]
proof fn strip_tags_spec_dec(s: Seq<char>) {
    lemma_find_index(s, '>');
}

/// Every character of the line is a digit.
pub open spec fn all_digits(l: Seq<char>) -> bool {
    forall|i: int| 0 <= i < l.len() ==> is_digit(l[i])
}

/// A line consisting solely of a numeric subtitle index.
pub open spec fn is_index_line(l: Seq<char>) -> bool {
    l.len() > 0 && all_digits(l)
}

/// The line contains the time-range marker `-->`.
pub open spec fn has_arrow(l: Seq<char>) -> bool {
    exists|i: int|
        0 <= i && i + 3 <= l.len() && #[trigger] l[i] == '-' && l[i + 1] == '-' && l[i + 2] == '>'
}

/// A line whose content the normalizer blanks out.
pub open spec fn line_dropped(l: Seq<char>) -> bool {
    is_index_line(l) || has_arrow(l)
}

/// Blanks the content of index lines and timing-cue lines; the newlines
/// themselves remain (the whitespace collapser eats them later).
pub open spec fn filter_lines_spec(s: Seq<char>) -> Seq<char>
    decreases s.len(),
    via filter_lines_spec_dec
{
    match find_index(s, '\n') {
        Some(i) => (if line_dropped(s.take(i)) {
            Seq::<char>::empty()
        } else {
            s.take(i)
        }) + seq!['\n'] + filter_lines_spec(s.skip(i + 1)),
        None => if line_dropped(s) {
            Seq::<char>::empty()
        } else {
            s
        },
    }
}

#[via_fn]
proof fn filter_lines_spec_dec(s: Seq<char>) {
    lemma_find_index(s, '\n');
}

/// Keeps only the allowed characters.
pub open spec fn filter_chars_spec(s: Seq<char>) -> Seq<char>
    decreases s.len(),
{
    if s.len() == 0 {
        Seq::<char>::empty()
    } else {
        (if allowed_char(s[0]) {
            seq![s[0]]
        } else {
            Seq::<char>::empty()
        }) + filter_chars_spec(s.skip(1))
    }
}

/// Prefixes a single space, unless nothing follows.
pub open spec fn glue(r: Seq<char>) -> Seq<char> {
    if r.len() == 0 {
        r
    } else {
        seq![' '] + r
    }
}

/// Whitespace collapsing outside a word: leading breaks vanish entirely.
pub open spec fn collapse_go(s: Seq<char>) -> Seq<char>
    decreases s.len(),
{
    if s.len() == 0 {
        Seq::<char>::empty()
    } else if is_break(s[0]) {
        collapse_go(s.skip(1))
    } else {
        seq![s[0]] + collapse_word(s.skip(1))
    }
}

/// Whitespace collapsing inside a word: a run of breaks becomes one space,
/// and only when another word follows.
pub open spec fn collapse_word(s: Seq<char>) -> Seq<char>
    decreases s.len(),
{
    if s.len() == 0 {
        Seq::<char>::empty()
    } else if !is_break(s[0]) {
        seq![s[0]] + collapse_word(s.skip(1))
    } else {
        glue(collapse_go(s.skip(1)))
    }
}

/// The complete normalization pipeline.
pub open spec fn normalize_spec(s: Seq<char>) -> Seq<char> {
    collapse_go(filter_chars_spec(filter_lines_spec(strip_tags_spec(s))))
}

/// Scans `v` from `from` for the first occurrence of `c`.
#[verifier::loop_isolation(false)]
fn find_char_from(v: &Vec<char>, from: usize, c: char) -> (r: Option<usize>)
    requires
        from <= v@.len(),
    ensures
        match r {
            Some(j) => from <= j && (j as int) < v@.len() && find_index(v@.skip(from as int), c)
                == Some(j - from),
            None => find_index(v@.skip(from as int), c) is None,
        },
{
    let ghost s = v@.skip(from as int);
    proof {
        lemma_find_index(s, c);
        assert(forall|e: int| 0 <= e < s.len() ==> s[e] == v@[from + e]);
    }
    let mut k = from;
    while k < v.len()
        invariant
            from <= k <= v@.len(),
            forall|l: int| from <= l < k ==> v@[l] != c,
        decreases v@.len() - k,
    {
        if v[k] == c {
            proof {
                assert(s[k - from] == c);
                match find_index(s, c) {
                    Some(i0) => {
                        if i0 < k - from {
                            assert(v@[from + i0] == c);
                        }
                        if i0 > k - from {
                            assert(s[k - from] != c);
                        }
                        assert(i0 == k - from);
                    },
                    None => {
                        assert(s[k - from] != c);
                    },
                }
            }
            return Some(k);
        }
        k = k + 1;
    }
    proof {
        if find_index(s, c) is Some {
            let i0 = find_index(s, c)->0;
            assert(v@[from + i0] == c);
        }
    }
    None
}

/// Appends `v[from..to]` to `out`.
#[verifier::loop_isolation(false)]
fn push_range(out: &mut Vec<char>, v: &Vec<char>, from: usize, to: usize)
    requires
        from <= to <= v@.len(),
    ensures
        final(out)@ == old(out)@ + v@.subrange(from as int, to as int),
{
    let mut k = from;
    while k < to
        invariant
            from <= k <= to,
            out@ =~= old(out)@ + v@.subrange(from as int, k as int),
        decreases to - k,
    {
        out.push(v[k]);
        k = k + 1;
    }
    assert(out@ =~= old(out)@ + v@.subrange(from as int, to as int));
}

/// Removes markup tags from a character vector.
#[verifier::loop_isolation(false)]
fn strip_tags_exec(v: &Vec<char>) -> (out: Vec<char>)
    ensures
        out@ == strip_tags_spec(v@),
{
    let mut out: Vec<char> = Vec::new();
    let mut i: usize = 0;
    proof {
        assert(v@.skip(0) =~= v@);
    }
    while i < v.len()
        invariant
            i <= v@.len(),
            strip_tags_spec(v@) =~= out@ + strip_tags_spec(v@.skip(i as int)),
        decreases v@.len() - i,
    {
        let ghost out0 = out@;
        let c = v[i];
        proof {
            assert(v@.skip(i as int)[0] == c);
            assert(v@.skip(i as int).skip(1) =~= v@.skip(i as int + 1));
        }
        if c == '<' {
            match find_char_from(v, i, '>') {
                Some(j) => {
                    proof {
                        assert(v@.skip(i as int).skip(j - i + 1) =~= v@.skip(j + 1));
                    }
                    i = j + 1;
                },
                None => {
                    out.push(c);
                    proof {
                        assert(out@ =~= out0 + seq![c]);
                        assert(out0 + (seq![c] + strip_tags_spec(v@.skip(i as int + 1))) =~= out@
                            + strip_tags_spec(v@.skip(i as int + 1)));
                    }
                    i = i + 1;
                },
            }
        } else {
            out.push(c);
            proof {
                assert(out@ =~= out0 + seq![c]);
                assert(out0 + (seq![c] + strip_tags_spec(v@.skip(i as int + 1))) =~= out@
                    + strip_tags_spec(v@.skip(i as int + 1)));
            }
            i = i + 1;
        }
    }
    proof {
        assert(strip_tags_spec(v@.skip(v@.len() as int)) =~= Seq::<char>::empty());
        assert(out@ + Seq::<char>::empty() =~= out@);
    }
    out
}

/// Decides whether the line `v[from..to]` is blanked by the normalizer.
#[verifier::loop_isolation(false)]
fn segment_dropped(v: &Vec<char>, from: usize, to: usize) -> (r: bool)
    requires
        from <= to <= v@.len(),
    ensures
        r == line_dropped(v@.subrange(from as int, to as int)),
{
    let ghost l = v@.subrange(from as int, to as int);
    proof {
        assert(forall|e: int| 0 <= e < l.len() ==> l[e] == v@[from + e]);
    }
    // Solely a numeric index?
    if to > from {
        let mut k = from;
        let mut digits = true;
        while k < to
            invariant
                from <= k <= to,
                digits <==> (forall|e: int| from <= e < k ==> is_digit(#[trigger] v@[e])),
            decreases to - k,
        {
            if !(v[k] >= '0' && v[k] <= '9') {
                digits = false;
            }
            k = k + 1;
        }
        if digits {
            proof {
                assert(forall|e: int| 0 <= e < l.len() ==> is_digit(l[e]));
            }
            return true;
        } else {
            proof {
                let e0 = choose|e: int| from <= e < to && !is_digit(#[trigger] v@[e]);
                assert(l[e0 - from] == v@[e0]);
                assert(!all_digits(l));
            }
        }
    }
    // Contains the time-range marker?
    if to - from >= 3 {
        let mut k = from;
        while k < to - 2
            invariant
                from <= k,
                k + 2 <= to,
                forall|e: int|
                    from <= e < k ==> !(#[trigger] v@[e] == '-' && v@[e + 1] == '-' && v@[e + 2]
                        == '>'),
            decreases to - k,
        {
            if v[k] == '-' && v[k + 1] == '-' && v[k + 2] == '>' {
                proof {
                    assert(l[k - from] == '-' && l[k - from + 1] == '-' && l[k - from + 2] == '>');
                    assert(has_arrow(l));
                }
                return true;
            }
            k = k + 1;
        }
    }
    proof {
        if has_arrow(l) {
            let i = choose|i: int|
                0 <= i && i + 3 <= l.len() && #[trigger] l[i] == '-' && l[i + 1] == '-' && l[i + 2]
                    == '>';
            assert(v@[from + i] == '-' && v@[from + i + 1] == '-' && v@[from + i + 2] == '>');
        }
    }
    false
}

/// Blanks index lines and timing-cue lines of a character vector.
#[verifier::loop_isolation(false)]
fn filter_lines_exec(v: &Vec<char>) -> (out: Vec<char>)
    ensures
        out@ == filter_lines_spec(v@),
{
    let mut out: Vec<char> = Vec::new();
    let mut i: usize = 0;
    proof {
        assert(v@.skip(0) =~= v@);
    }
    while i < v.len()
        invariant
            i <= v@.len(),
            filter_lines_spec(v@) =~= out@ + filter_lines_spec(v@.skip(i as int)),
        decreases v@.len() - i,
    {
        let ghost out0 = out@;
        let line_end: usize;
        let has_nl: bool;
        match find_char_from(v, i, '\n') {
            Some(j) => {
                line_end = j;
                has_nl = true;
            },
            None => {
                line_end = v.len();
                has_nl = false;
            },
        }
        proof {
            assert(v@.skip(i as int).take(line_end - i) =~= v@.subrange(
                i as int,
                line_end as int,
            ));
        }
        let dropped = segment_dropped(v, i, line_end);
        if !dropped {
            push_range(&mut out, v, i, line_end);
        }
        if has_nl {
            out.push('\n');
            proof {
                assert(v@.skip(i as int).skip(line_end - i + 1) =~= v@.skip(line_end + 1));
                let line = v@.subrange(i as int, line_end as int);
                let kept = if line_dropped(line) {
                    Seq::<char>::empty()
                } else {
                    line
                };
                assert(out@ =~= out0 + kept + seq!['\n']);
                assert(out0 + (kept + seq!['\n'] + filter_lines_spec(v@.skip(line_end + 1))) =~= out@
                    + filter_lines_spec(v@.skip(line_end + 1)));
            }
            i = line_end + 1;
        } else {
            proof {
                assert(v@.skip(i as int) =~= v@.subrange(i as int, line_end as int));
                let line = v@.subrange(i as int, line_end as int);
                let kept = if line_dropped(line) {
                    Seq::<char>::empty()
                } else {
                    line
                };
                assert(out@ =~= out0 + kept);
                assert(filter_lines_spec(v@.skip(i as int)) == kept);
            }
            i = line_end;
        }
    }
    proof {
        assert(filter_lines_spec(v@.skip(v@.len() as int)) =~= Seq::<char>::empty());
        assert(out@ + Seq::<char>::empty() =~= out@);
    }
    out
}

/// Keeps only the allowed characters of a character vector.
#[verifier::loop_isolation(false)]
fn filter_chars_exec(v: &Vec<char>) -> (out: Vec<char>)
    ensures
        out@ == filter_chars_spec(v@),
{
    let mut out: Vec<char> = Vec::new();
    let mut i: usize = 0;
    proof {
        assert(v@.skip(0) =~= v@);
    }
    while i < v.len()
        invariant
            i <= v@.len(),
            filter_chars_spec(v@) =~= out@ + filter_chars_spec(v@.skip(i as int)),
        decreases v@.len() - i,
    {
        let ghost out0 = out@;
        let c = v[i];
        proof {
            assert(v@.skip(i as int)[0] == c);
            assert(v@.skip(i as int).skip(1) =~= v@.skip(i as int + 1));
        }
        let keep = (c >= 'a' && c <= 'z') || (c >= 'A' && c <= 'Z') || (c >= '0' && c <= '9') || c
            == ' ' || c == '?' || c == '.' || c == ',' || c == '!' || c == '\n';
        if keep {
            out.push(c);
            proof {
                assert(out@ =~= out0 + seq![c]);
                assert(out0 + (seq![c] + filter_chars_spec(v@.skip(i as int + 1))) =~= out@
                    + filter_chars_spec(v@.skip(i as int + 1)));
            }
        } else {
            proof {
                assert(Seq::<char>::empty() + filter_chars_spec(v@.skip(i as int + 1))
                    =~= filter_chars_spec(v@.skip(i as int + 1)));
            }
        }
        i = i + 1;
    }
    proof {
        assert(filter_chars_spec(v@.skip(v@.len() as int)) =~= Seq::<char>::empty());
        assert(out@ + Seq::<char>::empty() =~= out@);
    }
    out
}

/// Collapses runs of spaces and newlines into single spaces and trims both
/// ends.
#[verifier::loop_isolation(false)]
fn collapse_exec(v: &Vec<char>) -> (out: Vec<char>)
    ensures
        out@ == collapse_go(v@),
{
    let mut out: Vec<char> = Vec::new();
    let mut pending = false;
    let mut i: usize = 0;
    proof {
        assert(v@.skip(0) =~= v@);
    }
    while i < v.len()
        invariant
            i <= v@.len(),
            out@.len() == 0 ==> !pending,
            out@.len() == 0 ==> collapse_go(v@) =~= collapse_go(v@.skip(i as int)),
            out@.len() > 0 && !pending ==> collapse_go(v@) =~= out@ + collapse_word(
                v@.skip(i as int),
            ),
            out@.len() > 0 && pending ==> collapse_go(v@) =~= out@ + glue(
                collapse_go(v@.skip(i as int)),
            ),
        decreases v@.len() - i,
    {
        let ghost out0 = out@;
        let c = v[i];
        proof {
            assert(v@.skip(i as int)[0] == c);
            assert(v@.skip(i as int).skip(1) =~= v@.skip(i as int + 1));
        }
        if c == ' ' || c == '\n' {
            if out.len() > 0 {
                pending = true;
            }
        } else {
            if pending {
                out.push(' ');
                out.push(c);
                proof {
                    assert(out@ =~= out0 + seq![' ', c]);
                    assert(seq![' '] + (seq![c] + collapse_word(v@.skip(i as int + 1))) =~= seq![
                        ' ',
                        c,
                    ] + collapse_word(v@.skip(i as int + 1)));
                    assert(out0 + (seq![' ', c] + collapse_word(v@.skip(i as int + 1))) =~= out@
                        + collapse_word(v@.skip(i as int + 1)));
                }
                pending = false;
            } else {
                out.push(c);
                proof {
                    assert(out@ =~= out0 + seq![c]);
                    assert(out0 + (seq![c] + collapse_word(v@.skip(i as int + 1))) =~= out@
                        + collapse_word(v@.skip(i as int + 1)));
                }
            }
        }
        i = i + 1;
    }
    proof {
        assert(v@.skip(v@.len() as int) =~= Seq::<char>::empty());
        assert(out@ + Seq::<char>::empty() =~= out@);
    }
    out
}

/// Every character that whitespace collapsing (outside a word) emits is
/// allowed and is neither a newline nor a leading, trailing or doubled space.
proof fn lemma_collapse_go_shape(s: Seq<char>)
    requires
        forall|j: int| 0 <= j < s.len() ==> allowed_char(#[trigger] s[j]),
    ensures
        forall|i: int|
            0 <= i < collapse_go(s).len() ==> allowed_char(#[trigger] collapse_go(s)[i])
                && collapse_go(s)[i] != '\n',
        collapse_go(s).len() > 0 ==> collapse_go(s)[0] != ' ' && collapse_go(s).last() != ' ',
        forall|i: int|
            0 <= i && i + 1 < collapse_go(s).len() ==> !(#[trigger] collapse_go(s)[i] == ' '
                && collapse_go(s)[i + 1] == ' '),
    decreases s.len(),
{
    if s.len() == 0 {
    } else {
        assert(forall|j: int| 0 <= j < s.skip(1).len() ==> s.skip(1)[j] == s[j + 1]);
        if is_break(s[0]) {
            lemma_collapse_go_shape(s.skip(1));
        } else {
            lemma_collapse_word_shape(s.skip(1));
            let ww = collapse_word(s.skip(1));
            let w = collapse_go(s);
            assert(w =~= seq![s[0]] + ww);
            assert(forall|i: int| 1 <= i < w.len() ==> w[i] == ww[i - 1]);
        }
    }
}

/// Every character that whitespace collapsing (inside a word) emits is
/// allowed and is neither a newline nor a trailing or doubled space.
proof fn lemma_collapse_word_shape(s: Seq<char>)
    requires
        forall|j: int| 0 <= j < s.len() ==> allowed_char(#[trigger] s[j]),
    ensures
        forall|i: int|
            0 <= i < collapse_word(s).len() ==> allowed_char(#[trigger] collapse_word(s)[i])
                && collapse_word(s)[i] != '\n',
        collapse_word(s).len() > 0 ==> collapse_word(s).last() != ' ',
        forall|i: int|
            0 <= i && i + 1 < collapse_word(s).len() ==> !(#[trigger] collapse_word(s)[i] == ' '
                && collapse_word(s)[i + 1] == ' '),
    decreases s.len(),
{
    if s.len() == 0 {
    } else {
        assert(forall|j: int| 0 <= j < s.skip(1).len() ==> s.skip(1)[j] == s[j + 1]);
        if !is_break(s[0]) {
            lemma_collapse_word_shape(s.skip(1));
            let ww = collapse_word(s.skip(1));
            let w = collapse_word(s);
            assert(w =~= seq![s[0]] + ww);
            assert(forall|i: int| 1 <= i < w.len() ==> w[i] == ww[i - 1]);
        } else {
            lemma_collapse_go_shape(s.skip(1));
            let g = collapse_go(s.skip(1));
            if g.len() > 0 {
                let w = collapse_word(s);
                assert(w =~= seq![' '] + g);
                assert(forall|i: int| 1 <= i < w.len() ==> w[i] == g[i - 1]);
            }
        }
    }
}

/// A sequence already in collapsed form passes through collapsing (outside a
/// word) unchanged.
proof fn lemma_collapse_go_fix(s: Seq<char>)
    requires
        forall|i: int| 0 <= i < s.len() ==> #[trigger] s[i] != '\n',
        s.len() > 0 ==> s[0] != ' ' && s.last() != ' ',
        forall|i: int| 0 <= i && i + 1 < s.len() ==> !(#[trigger] s[i] == ' ' && s[i + 1] == ' '),
    ensures
        collapse_go(s) == s,
    decreases s.len(),
{
    if s.len() == 0 {
        assert(collapse_go(s) =~= s);
    } else {
        assert(forall|j: int| 0 <= j < s.skip(1).len() ==> s.skip(1)[j] == s[j + 1]);
        lemma_collapse_word_fix(s.skip(1));
        assert(collapse_go(s) =~= seq![s[0]] + s.skip(1));
        assert(seq![s[0]] + s.skip(1) =~= s);
    }
}

/// A sequence already in collapsed form passes through collapsing (inside a
/// word) unchanged; a leading single space is preserved.
proof fn lemma_collapse_word_fix(s: Seq<char>)
    requires
        forall|i: int| 0 <= i < s.len() ==> #[trigger] s[i] != '\n',
        s.len() > 0 ==> s.last() != ' ',
        forall|i: int| 0 <= i && i + 1 < s.len() ==> !(#[trigger] s[i] == ' ' && s[i + 1] == ' '),
    ensures
        collapse_word(s) == s,
    decreases s.len(),
{
    if s.len() == 0 {
    } else {
        assert(forall|j: int| 0 <= j < s.skip(1).len() ==> s.skip(1)[j] == s[j + 1]);
        if !is_break(s[0]) {
            lemma_collapse_word_fix(s.skip(1));
            assert(collapse_word(s) =~= seq![s[0]] + s.skip(1));
            assert(seq![s[0]] + s.skip(1) =~= s);
        } else {
            // The head is a space: the tail is nonempty (no trailing space)
            // and starts with a non-break character (no doubled space).
            assert(s[0] == ' ');
            assert(s.len() >= 2);
            lemma_collapse_go_fix(s.skip(1));
            assert(collapse_word(s) =~= seq![' '] + s.skip(1));
            assert(seq![' '] + s.skip(1) =~= s);
        }
    }
}

/// The character filter emits only allowed characters.
proof fn lemma_filter_chars_allowed(s: Seq<char>)
    ensures
        forall|i: int|
            0 <= i < filter_chars_spec(s).len() ==> allowed_char(
                #[trigger] filter_chars_spec(s)[i],
            ),
    decreases s.len(),
{
    if s.len() == 0 {
    } else {
        lemma_filter_chars_allowed(s.skip(1));
        let f = filter_chars_spec(s);
        let rest = filter_chars_spec(s.skip(1));
        if allowed_char(s[0]) {
            assert(f =~= seq![s[0]] + rest);
            assert(forall|i: int| 1 <= i < f.len() ==> f[i] == rest[i - 1]);
        } else {
            assert(f =~= rest);
        }
    }
}

/// A sequence of allowed characters passes through the character filter
/// unchanged.
proof fn lemma_filter_chars_fix(s: Seq<char>)
    requires
        forall|i: int| 0 <= i < s.len() ==> allowed_char(#[trigger] s[i]),
    ensures
        filter_chars_spec(s) == s,
    decreases s.len(),
{
    if s.len() == 0 {
        assert(filter_chars_spec(s) =~= s);
    } else {
        assert(forall|j: int| 0 <= j < s.skip(1).len() ==> s.skip(1)[j] == s[j + 1]);
        lemma_filter_chars_fix(s.skip(1));
        assert(filter_chars_spec(s) =~= seq![s[0]] + s.skip(1));
        assert(seq![s[0]] + s.skip(1) =~= s);
    }
}

/// A sequence without `<` passes through tag removal unchanged.
proof fn lemma_strip_tags_fix(s: Seq<char>)
    requires
        forall|i: int| 0 <= i < s.len() ==> #[trigger] s[i] != '<',
    ensures
        strip_tags_spec(s) == s,
    decreases s.len(),
{
    if s.len() == 0 {
        assert(strip_tags_spec(s) =~= s);
    } else {
        assert(forall|j: int| 0 <= j < s.skip(1).len() ==> s.skip(1)[j] == s[j + 1]);
        lemma_strip_tags_fix(s.skip(1));
        assert(strip_tags_spec(s) =~= seq![s[0]] + s.skip(1));
        assert(seq![s[0]] + s.skip(1) =~= s);
    }
}

/// A single line (no newline) that is not blanked passes through the line
/// filter unchanged.
proof fn lemma_filter_lines_single(s: Seq<char>)
    requires
        forall|i: int| 0 <= i < s.len() ==> #[trigger] s[i] != '\n',
        !line_dropped(s),
    ensures
        filter_lines_spec(s) == s,
{
    lemma_find_index(s, '\n');
    if find_index(s, '\n') is Some {
        let i = find_index(s, '\n')->0;
        assert(s[i] == '\n');
    }
}

/// Normalization is idempotent: running the normalizer on its own output
/// changes nothing. The one exception is an output that is itself a bare
/// numeric index, which a second run would blank as an index line; such
/// outputs are excluded here.
pub proof fn lemma_normalize_idempotent(s: Seq<char>)
    requires
        !is_index_line(normalize_spec(s)),
    ensures
        normalize_spec(normalize_spec(s)) == normalize_spec(s),
{
    let inner = filter_chars_spec(filter_lines_spec(strip_tags_spec(s)));
    let y = normalize_spec(s);
    lemma_filter_chars_allowed(filter_lines_spec(strip_tags_spec(s)));
    lemma_collapse_go_shape(inner);
    // No '<' survives, so tag removal is the identity on y.
    assert(forall|i: int| 0 <= i < y.len() ==> #[trigger] y[i] != '<');
    lemma_strip_tags_fix(y);
    // No '-' survives, so y has no time-range marker; index lines are
    // excluded by the precondition; y is a single line.
    if has_arrow(y) {
        let i = choose|i: int|
            0 <= i && i + 3 <= y.len() && #[trigger] y[i] == '-' && y[i + 1] == '-' && y[i + 2]
                == '>';
        assert(allowed_char(y[i]));
    }
    lemma_filter_lines_single(y);
    lemma_filter_chars_fix(y);
    lemma_collapse_go_fix(y);
}

/// Normalizes raw subtitle text for lexical comparison: removes markup tags,
/// blanks index and timing-cue lines, drops punctuation noise and collapses
/// whitespace. Deterministic and total: no input is rejected.
pub fn strip_subtitles(subs: &str) -> (r: String)
    ensures
        r@ == normalize_spec(subs@),
{
    let chars = crate::text::str_chars(subs);
    let untagged = strip_tags_exec(&chars);
    let lines = filter_lines_exec(&untagged);
    let filtered = filter_chars_exec(&lines);
    let collapsed = collapse_exec(&filtered);
    crate::text::chars_to_string(&collapsed)
}

} // verus!
