//! The mathematical model of both rewrite passes, over the text as a sequence
//! of characters.
use vstd::prelude::*;

verus! {

/// What `str::to_lowercase` makes of a label.
pub uninterp spec fn lower_of(s: Seq<char>) -> Seq<char>;

/// Length of the first line of `s`: the characters before the first `'\n'`.
pub open spec fn line_len(s: Seq<char>) -> nat
    decreases s.len(),
{
    if s.len() == 0 || s[0] == '\n' {
        0
    } else {
        1 + line_len(s.drop_first())
    }
}

pub open spec fn no_newline(s: Seq<char>) -> bool {
    forall|k: int| 0 <= k < s.len() ==> s[k] != '\n'
}

pub open spec fn no_close_bracket(s: Seq<char>) -> bool {
    forall|k: int| 0 <= k < s.len() ==> s[k] != ']'
}

/// Number of leading spaces of a line.
pub open spec fn indent(s: Seq<char>) -> nat
    decreases s.len(),
{
    if s.len() > 0 && s[0] == ' ' {
        1 + indent(s.drop_first())
    } else {
        0
    }
}

/// A line `r[id]`, where `id` holds no `]`.
pub open spec fn is_rule_line(l: Seq<char>) -> bool {
    &&& l.len() >= 3
    &&& l[0] == 'r'
    &&& l[1] == '['
    &&& l[l.len() - 1] == ']'
    &&& no_close_bracket(l.subrange(2, l.len() - 1))
}

pub open spec fn rule_id(l: Seq<char>) -> Seq<char> {
    l.subrange(2, l.len() - 1)
}

/// The anchor that replaces a rule line, with its own line terminator.
pub open spec fn rule_markup(id: Seq<char>) -> Seq<char> {
    "<div class=\"rule\" id=\""@ + id + "\"><a class=\"rule-link\" href=\"#"@ + id + "\">["@ + id
        + "]</a></div>\n"@
}

/// A line of spaces, then `> [!label]`, where `label` holds no `]`.
pub open spec fn is_opening_line(l: Seq<char>) -> bool {
    let n = indent(l) as int;
    &&& l.len() >= n + 5
    &&& l[n] == '>'
    &&& l[n + 1] == ' '
    &&& l[n + 2] == '['
    &&& l[n + 3] == '!'
    &&& l[l.len() - 1] == ']'
    &&& no_close_bracket(l.subrange(n + 4, l.len() - 1))
}

pub open spec fn opening_label(l: Seq<char>) -> Seq<char> {
    l.subrange(indent(l) as int + 4, l.len() - 1)
}

/// A line of spaces, then `> `, then anything.
pub open spec fn is_quoted_line(l: Seq<char>) -> bool {
    let n = indent(l) as int;
    l.len() >= n + 2 && l[n] == '>' && l[n + 1] == ' '
}

/// Length of the run of quoted lines, each ended by `'\n'`, at the start of `s`.
pub open spec fn quoted_run_len(s: Seq<char>) -> nat
    decreases s.len(),
{
    let e = line_len(s) as int;
    if e < s.len() && is_quoted_line(s.take(e)) {
        (e + 1 + quoted_run_len(s.skip(e + 1))) as nat
    } else {
        0
    }
}

/// The block that replaces an admonition: the lowered label as the class, the
/// quoted lines kept as they were, set off by blank lines.
pub open spec fn admonition_markup(class: Seq<char>, body: Seq<char>) -> Seq<char> {
    "<div class=\""@ + class + "\">\n\n"@ + body + "\n</div>\n"@
}

/// The first pass: every rule line replaced by its anchor.
pub open spec fn rules_expanded(t: Seq<char>) -> Seq<char>
    decreases t.len(),
{
    let e = line_len(t) as int;
    let line = t.take(e);
    let head = if is_rule_line(line) {
        rule_markup(rule_id(line))
    } else {
        line
    };
    if e < t.len() {
        head + seq!['\n'] + rules_expanded(t.skip(e + 1))
    } else {
        head
    }
}

/// Whether an admonition block starts at the start of `t`.
pub open spec fn admonition_at(t: Seq<char>) -> bool {
    let e = line_len(t) as int;
    e < t.len() && is_opening_line(t.take(e)) && quoted_run_len(t.skip(e + 1)) > 0
}

/// The first line lies within `s`, holds no `'\n'`, and is ended by one
/// unless it reaches the end.
pub proof fn lemma_line_len(s: Seq<char>)
    ensures
        line_len(s) <= s.len(),
        line_len(s) < s.len() ==> s[line_len(s) as int] == '\n',
        no_newline(s.take(line_len(s) as int)),
    decreases s.len(),
{
    if s.len() > 0 && s[0] != '\n' {
        lemma_line_len(s.drop_first());
        let n = line_len(s.drop_first()) as int;
        assert forall|k: int| 0 <= k < n + 1 implies #[trigger] s.take(n + 1)[k] != '\n' by {
            if k > 0 {
                assert(s.take(n + 1)[k] == s.drop_first().take(n)[k - 1]);
            }
        }
    }
}

/// A run of quoted lines lies within the text.
pub proof fn lemma_quoted_run_len(s: Seq<char>)
    ensures
        quoted_run_len(s) <= s.len(),
    decreases s.len(),
{
    lemma_line_len(s);
    let e = line_len(s) as int;
    if e < s.len() && is_quoted_line(s.take(e)) {
        lemma_quoted_run_len(s.skip(e + 1));
    }
}

#[via_fn]
proof fn admonitions_expanded_decreases(t: Seq<char>) {
    lemma_line_len(t);
    let e = line_len(t) as int;
    if admonition_at(t) {
        lemma_quoted_run_len(t.skip(e + 1));
    }
}

/// The second pass: every admonition block, taken greedily from the first
/// line where one starts, replaced by its markup.
#[verifier::opaque]
pub open spec fn admonitions_expanded(t: Seq<char>) -> Seq<char>
    decreases t.len() via admonitions_expanded_decreases
{
    let e = line_len(t) as int;
    if admonition_at(t) {
        let rest = t.skip(e + 1);
        let n = quoted_run_len(rest);
        admonition_markup(lower_of(opening_label(t.take(e))), rest.take(n as int))
            + admonitions_expanded(rest.skip(n as int))
    } else if e < t.len() {
        t.take(e) + seq!['\n'] + admonitions_expanded(t.skip(e + 1))
    } else {
        t
    }
}

/// The second pass where an admonition block starts the text.
pub proof fn lemma_admonitions_block(t: Seq<char>)
    requires
        admonition_at(t),
    ensures
        ({
            let e = line_len(t) as int;
            let n = quoted_run_len(t.skip(e + 1)) as int;
            &&& e + 1 + n <= t.len()
            &&& admonitions_expanded(t) == admonition_markup(
                lower_of(opening_label(t.take(e))),
                t.subrange(e + 1, e + 1 + n),
            ) + admonitions_expanded(t.skip(e + 1 + n))
        }),
{
    reveal(admonitions_expanded);
    let e = line_len(t) as int;
    let rest = t.skip(e + 1);
    let n = quoted_run_len(rest) as int;
    lemma_quoted_run_len(rest);
    assert(rest.take(n) =~= t.subrange(e + 1, e + 1 + n));
    assert(rest.skip(n) =~= t.skip(e + 1 + n));
}

/// The second pass where a line that starts no admonition starts the text.
pub proof fn lemma_admonitions_line(t: Seq<char>)
    requires
        !admonition_at(t),
    ensures
        line_len(t) < t.len() ==> admonitions_expanded(t) == t.take(line_len(t) as int) + seq![
            '\n',
        ] + admonitions_expanded(t.skip(line_len(t) as int + 1)),
        line_len(t) >= t.len() ==> admonitions_expanded(t) == t,
{
    reveal(admonitions_expanded);
}

/// No line of `t` is a rule line.
pub open spec fn no_rule_lines(t: Seq<char>) -> bool
    decreases t.len(),
{
    let e = line_len(t) as int;
    &&& !is_rule_line(t.take(e))
    &&& (e < t.len() ==> no_rule_lines(t.skip(e + 1)))
}

/// No line of `t` starts an admonition block.
pub open spec fn no_admonitions(t: Seq<char>) -> bool
    decreases t.len(),
{
    let e = line_len(t) as int;
    &&& !admonition_at(t)
    &&& (e < t.len() ==> no_admonitions(t.skip(e + 1)))
}

/// Some quoted line of the run at the start of `s` would itself start an
/// admonition block there: it opens one and another quoted line follows it.
pub open spec fn run_has_inner_opening(s: Seq<char>) -> bool
    decreases s.len(),
{
    let e = line_len(s) as int;
    &&& e < s.len()
    &&& is_quoted_line(s.take(e))
    &&& (admonition_at(s) || run_has_inner_opening(s.skip(e + 1)))
}

#[via_fn]
proof fn blocks_settle_decreases(t: Seq<char>) {
    lemma_line_len(t);
    if admonition_at(t) {
        lemma_quoted_run_len(t.skip(line_len(t) as int + 1));
    }
}

/// Every admonition block of `t` turns into markup that a second rewrite
/// leaves alone: no quoted line in it starts another block, and its class
/// holds no line break.
pub open spec fn blocks_settle(t: Seq<char>) -> bool
    decreases t.len() via blocks_settle_decreases
{
    let e = line_len(t) as int;
    if admonition_at(t) {
        let rest = t.skip(e + 1);
        &&& !run_has_inner_opening(rest)
        &&& no_newline(lower_of(opening_label(t.take(e))))
        &&& blocks_settle(rest.skip(quoted_run_len(rest) as int))
    } else if e < t.len() {
        blocks_settle(t.skip(e + 1))
    } else {
        true
    }
}

/// The whole rewrite: rule lines first, then admonitions in what that left.
pub open spec fn rewritten(t: Seq<char>) -> Seq<char> {
    admonitions_expanded(rules_expanded(t))
}

} // verus!
