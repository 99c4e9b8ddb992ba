//! The rewrite passes over a chapter's text.
use vstd::prelude::*;
use vstd::std_specs::iter::IteratorSpec;
use crate::markup::{
    admonition_at, admonition_markup, admonitions_expanded, indent, is_opening_line,
    is_quoted_line, is_rule_line, lemma_admonitions_block, lemma_admonitions_line, line_len,
    lower_of, no_close_bracket, opening_label, quoted_run_len, rewritten, rule_id, rule_markup,
    rules_expanded,
};

verus! {

broadcast use vstd::string::axiom_spec_iter, vstd::string::next_postcondition;

/// Relies on `str::to_lowercase`: the lowercase form of a string depends on
/// its characters alone.
#[verifier::external_body]
fn lowercase(s: &str) -> (r: String)
    ensures
        r@ == lower_of(s@),
{
    s.to_lowercase()
}

/// Relies on `String`'s `FromIterator<char>`: the string holds the given
/// characters, in order.
#[verifier::external_body]
fn string_from_chars(v: Vec<char>) -> (r: String)
    ensures
        r@ == v@,
{
    String::from_iter(v)
}

/// Appends the characters of `s` to `out`.
fn push_str(out: &mut Vec<char>, s: &str)
    ensures
        final(out)@ == old(out)@ + s@,
{
    let ghost start = out@;
    let mut it = s.chars();
    loop
        invariant
            out@ + it.remaining() == start + s@,
            it.decrease() is Some,
        ensures
            out@ == start + s@,
        decreases it.decrease()->0,
    {
        match it.next() {
            Some(c) => {
                out.push(c);
                assert(out@ + it.remaining() =~= start + s@);
            },
            None => {
                assert(out@ =~= out@ + it.remaining());
                break ;
            },
        }
    }
}

/// The characters of `s`.
fn chars_of(s: &str) -> (r: Vec<char>)
    ensures
        r@ == s@,
{
    let mut r: Vec<char> = Vec::new();
    push_str(&mut r, s);
    assert(r@ =~= s@);
    r
}

/// Appends `t[a..b]` to `out`.
fn push_slice(out: &mut Vec<char>, t: &Vec<char>, a: usize, b: usize)
    requires
        a <= b <= t@.len(),
    ensures
        final(out)@ == old(out)@ + t@.subrange(a as int, b as int),
{
    let ghost start = out@;
    let mut k: usize = a;
    while k < b
        invariant
            a <= k <= b <= t@.len(),
            out@ == start + t@.subrange(a as int, k as int),
        decreases b - k,
    {
        out.push(t[k]);
        k = k + 1;
        assert(out@ =~= start + t@.subrange(a as int, k as int));
    }
}

/// The end of the line that starts at `i`: the index of the next `'\n'`, or
/// the length of the text.
fn line_end(t: &Vec<char>, i: usize) -> (j: usize)
    requires
        i <= t@.len(),
    ensures
        i <= j <= t@.len(),
        j - i == line_len(t@.skip(i as int)),
{
    let mut j: usize = i;
    while j < t.len() && t[j] != '\n'
        invariant
            i <= j <= t@.len(),
            line_len(t@.skip(i as int)) == (j - i) + line_len(t@.skip(j as int)),
        decreases t@.len() - j,
    {
        assert(t@.skip(j as int).drop_first() =~= t@.skip(j + 1));
        j = j + 1;
    }
    j
}

/// Whether `t[a..b]` has no `]`.
fn no_close_bracket_in(t: &Vec<char>, a: usize, b: usize) -> (r: bool)
    requires
        a <= b <= t@.len(),
    ensures
        r == no_close_bracket(t@.subrange(a as int, b as int)),
{
    let mut k: usize = a;
    while k < b
        invariant
            a <= k <= b <= t@.len(),
            forall|x: int| a <= x < k ==> t@[x] != ']',
        decreases b - k,
    {
        if t[k] == ']' {
            assert(t@.subrange(a as int, b as int)[k - a] == ']');
            return false;
        }
        k = k + 1;
    }
    assert forall|x: int| 0 <= x < b - a implies #[trigger] t@.subrange(a as int, b as int)[x]
        != ']' by {
        assert(t@.subrange(a as int, b as int)[x] == t@[a + x]);
    }
    true
}

/// Whether the line `t[a..b]` is a rule line.
fn is_rule_line_at(t: &Vec<char>, a: usize, b: usize) -> (r: bool)
    requires
        a <= b <= t@.len(),
    ensures
        r == is_rule_line(t@.subrange(a as int, b as int)),
{
    let ghost l = t@.subrange(a as int, b as int);
    if b - a < 3 || t[a] != 'r' || t[a + 1] != '[' || t[b - 1] != ']' {
        return false;
    }
    assert(l.subrange(2, l.len() - 1) =~= t@.subrange(a + 2, b - 1));
    no_close_bracket_in(t, a + 2, b - 1)
}

/// Appends the anchor for the rule whose identifier is `t[a..b]`.
fn push_rule_markup(out: &mut Vec<char>, t: &Vec<char>, a: usize, b: usize)
    requires
        a <= b <= t@.len(),
    ensures
        final(out)@ == old(out)@ + rule_markup(t@.subrange(a as int, b as int)),
{
    let ghost start = out@;
    let ghost id = t@.subrange(a as int, b as int);
    push_str(out, "<div class=\"rule\" id=\"");
    push_slice(out, t, a, b);
    push_str(out, "\"><a class=\"rule-link\" href=\"#");
    push_slice(out, t, a, b);
    push_str(out, "\">[");
    push_slice(out, t, a, b);
    push_str(out, "]</a></div>\n");
    assert(out@ =~= start + rule_markup(id));
}

/// The first pass on a sequence of characters.
fn rules_pass(t: &Vec<char>) -> (r: Vec<char>)
    ensures
        r@ == rules_expanded(t@),
{
    let mut out: Vec<char> = Vec::new();
    let mut i: usize = 0;
    assert(t@.skip(0) =~= t@);
    loop
        invariant_except_break
            rules_expanded(t@) == out@ + rules_expanded(t@.skip(i as int)),
        invariant
            i <= t@.len(),
        ensures
            out@ == rules_expanded(t@),
        decreases t@.len() - i,
    {
        let j = line_end(t, i);
        let ghost rest = t@.skip(i as int);
        assert(rest.take(j - i) =~= t@.subrange(i as int, j as int));
        let ghost prev = out@;
        if is_rule_line_at(t, i, j) {
            assert(rule_id(t@.subrange(i as int, j as int)) =~= t@.subrange(i + 2, j - 1));
            push_rule_markup(&mut out, t, i + 2, j - 1);
        } else {
            push_slice(&mut out, t, i, j);
        }
        if j < t.len() {
            out.push('\n');
            assert(rest.skip(j - i + 1) =~= t@.skip(j + 1));
            assert(out@ + rules_expanded(t@.skip(j + 1)) =~= prev + rules_expanded(rest));
            i = j + 1;
        } else {
            assert(out@ =~= prev + rules_expanded(rest));
            break ;
        }
    }
    out
}

/// Replaces every line `r[id]` of `text`, where `id` holds no `]`, by an
/// anchor for the rule `id`; all other text is kept.
pub fn expand_rule_references(text: &str) -> (r: String)
    ensures
        r@ == rules_expanded(text@),
{
    let t = chars_of(text);
    string_from_chars(rules_pass(&t))
}

/// The end of the leading spaces of the line `t[a..b]`.
fn indent_end(t: &Vec<char>, a: usize, b: usize) -> (m: usize)
    requires
        a <= b <= t@.len(),
    ensures
        a <= m <= b,
        m - a == indent(t@.subrange(a as int, b as int)),
{
    let mut m: usize = a;
    while m < b && t[m] == ' '
        invariant
            a <= m <= b <= t@.len(),
            indent(t@.subrange(a as int, b as int)) == (m - a) + indent(
                t@.subrange(m as int, b as int),
            ),
        decreases b - m,
    {
        assert(t@.subrange(m as int, b as int).drop_first() =~= t@.subrange(m + 1, b as int));
        m = m + 1;
    }
    m
}

/// Whether the line `t[a..b]` opens an admonition; if so, also the start of
/// its label.
fn opening_line_at(t: &Vec<char>, a: usize, b: usize) -> (r: (bool, usize))
    requires
        a <= b <= t@.len(),
    ensures
        r.0 == is_opening_line(t@.subrange(a as int, b as int)),
        r.0 ==> a + 4 <= r.1 + 1 <= b && opening_label(t@.subrange(a as int, b as int))
            == t@.subrange(r.1 as int, b - 1),
{
    let ghost l = t@.subrange(a as int, b as int);
    let m = indent_end(t, a, b);
    if b - m < 5 || t[m] != '>' || t[m + 1] != ' ' || t[m + 2] != '[' || t[m + 3] != '!' || t[b
        - 1] != ']' {
        return (false, m);
    }
    assert(l.subrange(m - a + 4, l.len() - 1) =~= t@.subrange(m + 4, b - 1));
    (no_close_bracket_in(t, m + 4, b - 1), m + 4)
}

/// Whether the line `t[a..b]` is a quoted line.
fn quoted_line_at(t: &Vec<char>, a: usize, b: usize) -> (r: bool)
    requires
        a <= b <= t@.len(),
    ensures
        r == is_quoted_line(t@.subrange(a as int, b as int)),
{
    let m = indent_end(t, a, b);
    b - m >= 2 && t[m] == '>' && t[m + 1] == ' '
}

/// The end of the run of quoted lines, each ended by `'\n'`, that starts at `s`.
fn quoted_run_end(t: &Vec<char>, s: usize) -> (k: usize)
    requires
        s <= t@.len(),
    ensures
        s <= k <= t@.len(),
        k - s == quoted_run_len(t@.skip(s as int)),
{
    let mut k: usize = s;
    loop
        invariant_except_break
            quoted_run_len(t@.skip(s as int)) == (k - s) + quoted_run_len(t@.skip(k as int)),
        invariant
            s <= k <= t@.len(),
        ensures
            k - s == quoted_run_len(t@.skip(s as int)),
        decreases t@.len() - k,
    {
        let e = line_end(t, k);
        let ghost rest = t@.skip(k as int);
        assert(rest.take(e - k) =~= t@.subrange(k as int, e as int));
        if e < t.len() && quoted_line_at(t, k, e) {
            assert(rest.skip(e - k + 1) =~= t@.skip(e + 1));
            k = e + 1;
        } else {
            break ;
        }
    }
    k
}

/// Appends the markup of an admonition of class `class` around `body`.
fn push_admonition_markup(out: &mut Vec<char>, class: &str, t: &Vec<char>, a: usize, b: usize)
    requires
        a <= b <= t@.len(),
    ensures
        final(out)@ == old(out)@ + admonition_markup(class@, t@.subrange(a as int, b as int)),
{
    let ghost start = out@;
    push_str(out, "<div class=\"");
    push_str(out, class);
    push_str(out, "\">\n\n");
    push_slice(out, t, a, b);
    push_str(out, "\n</div>\n");
    assert(out@ =~= start + admonition_markup(class@, t@.subrange(a as int, b as int)));
}

/// The second pass on a sequence of characters.
fn admonitions_pass(t: &Vec<char>) -> (r: Vec<char>)
    ensures
        r@ == admonitions_expanded(t@),
{
    let mut out: Vec<char> = Vec::new();
    let mut i: usize = 0;
    assert(t@.skip(0) =~= t@);
    loop
        invariant_except_break
            admonitions_expanded(t@) == out@ + admonitions_expanded(t@.skip(i as int)),
        invariant
            i <= t@.len(),
        ensures
            out@ == admonitions_expanded(t@),
        decreases t@.len() - i,
    {
        let e = line_end(t, i);
        let ghost rest = t@.skip(i as int);
        let ghost prev = out@;
        assert(rest.take(e - i) =~= t@.subrange(i as int, e as int));
        if e < t.len() {
            assert(rest.skip(e - i + 1) =~= t@.skip(e + 1));
            let (opening, label_start) = opening_line_at(t, i, e);
            let k = if opening {
                quoted_run_end(t, e + 1)
            } else {
                e + 1
            };
            if k > e + 1 {
                assert(admonition_at(rest));
                proof {
                    lemma_admonitions_block(rest);
                }
                let mut label: Vec<char> = Vec::new();
                push_slice(&mut label, t, label_start, e - 1);
                let label = string_from_chars(label);
                let class = lowercase(label.as_str());
                push_admonition_markup(&mut out, class.as_str(), t, e + 1, k);
                assert(rest.subrange(e - i + 1, k - i) =~= t@.subrange(e + 1, k as int));
                assert(rest.skip(k - i) =~= t@.skip(k as int));
                i = k;
            } else {
                assert(!admonition_at(rest));
                proof {
                    lemma_admonitions_line(rest);
                }
                push_slice(&mut out, t, i, e);
                out.push('\n');
                assert(out@ + admonitions_expanded(t@.skip(e + 1)) =~= prev
                    + admonitions_expanded(rest));
                i = e + 1;
            }
        } else {
            push_slice(&mut out, t, i, e);
            proof {
                lemma_admonitions_line(rest);
            }
            assert(rest =~= t@.subrange(i as int, e as int));
            assert(out@ =~= prev + admonitions_expanded(rest));
            break ;
        }
    }
    out
}

/// Replaces every admonition block of `text` by its markup. A block is a line
/// `> [!label]` (after optional spaces) followed by one or more lines that
/// start with `> ` (after optional spaces), each ended by a line break; it
/// becomes a `div` whose class is the lowercased label, holding the quoted
/// lines unchanged between blank lines. All other text is kept.
pub fn expand_admonitions(text: &str) -> (r: String)
    ensures
        r@ == admonitions_expanded(text@),
{
    let t = chars_of(text);
    string_from_chars(admonitions_pass(&t))
}

/// The markup of one admonition: a `div` of class `class` around `body`.
pub fn admonition_fragment(class: &str, body: &str) -> (r: String)
    ensures
        r@ == admonition_markup(class@, body@),
{
    let t = chars_of(body);
    let mut out: Vec<char> = Vec::new();
    push_admonition_markup(&mut out, class, &t, 0, t.len());
    assert(t@.subrange(0, t@.len() as int) =~= body@);
    string_from_chars(out)
}

/// Rewrites a chapter: first every rule line, then every admonition block in
/// the result.
pub fn rewrite(text: &str) -> (r: String)
    ensures
        r@ == rewritten(text@),
{
    let t = chars_of(text);
    let expanded = rules_pass(&t);
    string_from_chars(admonitions_pass(&expanded))
}

} // verus!
