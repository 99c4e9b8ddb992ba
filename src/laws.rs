//! What holds of the rewrite as a whole.
use vstd::prelude::*;
use crate::markup::{
    admonition_at, admonition_markup, admonitions_expanded, blocks_settle, indent,
    is_opening_line, is_quoted_line, is_rule_line, lemma_admonitions_block,
    lemma_admonitions_line, lemma_line_len, lemma_quoted_run_len, line_len, lower_of,
    no_admonitions, no_close_bracket, no_newline, no_rule_lines, opening_label, quoted_run_len,
    rewritten, rule_id, rule_markup, rules_expanded, run_has_inner_opening,
};

verus! {

/// The first line of a line `l` followed by `'\n'` is `l`.
proof fn lemma_line_len_of_line(l: Seq<char>, rest: Seq<char>)
    requires
        no_newline(l),
    ensures
        line_len(l + seq!['\n'] + rest) == l.len(),
        line_len(l) == l.len(),
    decreases l.len(),
{
    if l.len() > 0 {
        assert((l + seq!['\n'] + rest).drop_first() =~= l.drop_first() + seq!['\n'] + rest);
        assert(l.drop_first() =~= l.skip(1));
        lemma_line_len_of_line(l.drop_first(), rest);
    } else {
        assert((l + seq!['\n'] + rest)[0] == '\n');
    }
}

/// A text without rule lines is left as it is by the first pass.
proof fn lemma_rules_identity(t: Seq<char>)
    requires
        no_rule_lines(t),
    ensures
        rules_expanded(t) == t,
    decreases t.len(),
{
    lemma_line_len(t);
    let e = line_len(t) as int;
    if e < t.len() {
        lemma_rules_identity(t.skip(e + 1));
        assert(t.take(e) + seq!['\n'] + t.skip(e + 1) =~= t);
    } else {
        assert(t.take(e) =~= t);
    }
}

/// A text where no admonition block starts is left as it is by the second
/// pass.
proof fn lemma_admonitions_identity(t: Seq<char>)
    requires
        no_admonitions(t),
    ensures
        admonitions_expanded(t) == t,
    decreases t.len(),
{
    lemma_line_len(t);
    lemma_admonitions_line(t);
    let e = line_len(t) as int;
    if e < t.len() {
        lemma_admonitions_identity(t.skip(e + 1));
        assert(t.take(e) + seq!['\n'] + t.skip(e + 1) =~= t);
    }
}

/// A text in which no line is a rule line and no line starts an admonition
/// block is left unchanged by the rewrite.
pub proof fn law_plain_text_unchanged(t: Seq<char>)
    requires
        no_rule_lines(t),
        no_admonitions(t),
    ensures
        rewritten(t) == t,
{
    lemma_rules_identity(t);
    lemma_admonitions_identity(t);
}

/// A line followed by `'\n'` and more text: how the line-wise predicates
/// split over it.
proof fn lemma_cons(l: Seq<char>, r: Seq<char>)
    requires
        no_newline(l),
    ensures
        line_len(l + seq!['\n'] + r) == l.len(),
        (l + seq!['\n'] + r).take(l.len() as int) == l,
        (l + seq!['\n'] + r).skip(l.len() as int + 1) == r,
        no_rule_lines(l + seq!['\n'] + r) <==> !is_rule_line(l) && no_rule_lines(r),
        admonition_at(l + seq!['\n'] + r) <==> is_opening_line(l) && quoted_run_len(r) > 0,
        no_admonitions(l + seq!['\n'] + r) <==> !admonition_at(l + seq!['\n'] + r)
            && no_admonitions(r),
        quoted_run_len(l + seq!['\n'] + r) > 0 <==> is_quoted_line(l),
{
    let t = l + seq!['\n'] + r;
    lemma_line_len_of_line(l, r);
    assert(t.take(l.len() as int) =~= l);
    assert(t.skip(l.len() as int + 1) =~= r);
}

/// The empty line: neither a rule line, nor a quoted or an opening line.
proof fn lemma_blank(r: Seq<char>)
    ensures
        no_rule_lines(seq!['\n'] + r) <==> no_rule_lines(r),
        no_admonitions(seq!['\n'] + r) <==> no_admonitions(r),
        quoted_run_len(seq!['\n'] + r) == 0,
{
    let e = Seq::<char>::empty();
    assert(seq!['\n'] + r =~= e + seq!['\n'] + r);
    assert(indent(e) == 0);
    lemma_cons(e, r);
}

/// A line that starts with a character other than `' '`, `'>'` or `'r'`.
proof fn lemma_markup_line(l: Seq<char>)
    requires
        l.len() > 0,
        l[0] != ' ',
        l[0] != '>',
        l[0] != 'r',
    ensures
        !is_rule_line(l),
        !is_opening_line(l),
        !is_quoted_line(l),
{
    assert(indent(l) == 0);
}

/// A quoted line is no rule line.
proof fn lemma_quoted_not_rule(l: Seq<char>)
    requires
        is_quoted_line(l),
    ensures
        !is_rule_line(l),
{
    if l.len() > 0 && l[0] == 'r' {
        assert(indent(l) == 0);
    }
}

/// An opening line is a quoted line.
proof fn lemma_opening_quoted(l: Seq<char>)
    requires
        is_opening_line(l),
    ensures
        is_quoted_line(l),
{
}

/// The line of an anchor, without its line terminator.
spec fn anchor_line(id: Seq<char>) -> Seq<char> {
    "<div class=\"rule\" id=\""@ + id + "\"><a class=\"rule-link\" href=\"#"@ + id + "\">["@ + id
        + "]</a></div>"@
}

proof fn lemma_anchor_line(id: Seq<char>)
    requires
        no_newline(id),
    ensures
        rule_markup(id) == anchor_line(id) + seq!['\n'],
        no_newline(anchor_line(id)),
        anchor_line(id).len() > 0,
        anchor_line(id)[0] == '<',
{
    let head = "<div class=\"rule\" id=\""@;
    let a = "\"><a class=\"rule-link\" href=\"#"@;
    let b = "\">["@;
    let last = "]</a></div>"@;
    reveal_strlit("<div class=\"rule\" id=\"");
    reveal_strlit("\"><a class=\"rule-link\" href=\"#");
    reveal_strlit("\">[");
    reveal_strlit("]</a></div>");
    reveal_strlit("]</a></div>\n");
    assert("]</a></div>\n"@ =~= last + seq!['\n']);
    let l = anchor_line(id);
    assert(rule_markup(id) =~= l + seq!['\n']);
    assert(no_newline(l)) by {
        assert forall|k: int| 0 <= k < l.len() implies l[k] != '\n' by {
            let p1 = head.len() as int;
            let p2 = p1 + id.len();
            let p3 = p2 + a.len();
            let p4 = p3 + id.len();
            let p5 = p4 + b.len();
            let p6 = p5 + id.len();
            if k < p1 {
                assert(l[k] == head[k]);
            } else if k < p2 {
                assert(l[k] == id[k - p1]);
            } else if k < p3 {
                assert(l[k] == a[k - p2]);
            } else if k < p4 {
                assert(l[k] == id[k - p3]);
            } else if k < p5 {
                assert(l[k] == b[k - p4]);
            } else if k < p6 {
                assert(l[k] == id[k - p5]);
            } else {
                assert(l[k] == last[k - p6]);
            }
        }
    }
}

/// The first pass leaves no rule line behind.
proof fn lemma_rules_expanded_clean(t: Seq<char>)
    ensures
        no_rule_lines(rules_expanded(t)),
    decreases t.len(),
{
    lemma_line_len(t);
    let e = line_len(t) as int;
    let line = t.take(e);
    let empty = Seq::<char>::empty();
    assert(line_len(empty) == 0 && empty.take(0) =~= empty);
    assert(no_rule_lines(empty));
    if is_rule_line(line) {
        let id = rule_id(line);
        assert(no_newline(id)) by {
            assert forall|k: int| 0 <= k < id.len() implies id[k] != '\n' by {
                assert(id[k] == line[k + 2]);
            }
        }
        lemma_anchor_line(id);
        let a = anchor_line(id);
        lemma_markup_line(a);
        if e < t.len() {
            let r = rules_expanded(t.skip(e + 1));
            lemma_rules_expanded_clean(t.skip(e + 1));
            assert(rules_expanded(t) =~= a + seq!['\n'] + (seq!['\n'] + r));
            lemma_blank(r);
            lemma_cons(a, seq!['\n'] + r);
        } else {
            assert(rules_expanded(t) =~= a + seq!['\n'] + empty);
            lemma_cons(a, empty);
        }
    } else {
        if e < t.len() {
            lemma_rules_expanded_clean(t.skip(e + 1));
            lemma_cons(line, rules_expanded(t.skip(e + 1)));
        } else {
            lemma_line_len_of_line(line, empty);
            assert(line.take(line.len() as int) =~= line);
        }
    }
}

/// Skipping a run of quoted lines keeps a text free of rule lines.
proof fn lemma_skip_run(s: Seq<char>)
    requires
        no_rule_lines(s),
    ensures
        no_rule_lines(s.skip(quoted_run_len(s) as int)),
    decreases s.len(),
{
    lemma_line_len(s);
    let e = line_len(s) as int;
    if e < s.len() && is_quoted_line(s.take(e)) {
        let s2 = s.skip(e + 1);
        lemma_skip_run(s2);
        lemma_quoted_run_len(s2);
        assert(s.skip(quoted_run_len(s) as int) =~= s2.skip(quoted_run_len(s2) as int));
    } else {
        assert(s.skip(0) =~= s);
    }
}

/// The quoted lines of a block, followed by a blank line and text `z` that is
/// clean, are clean, where no quoted line of them starts a block.
proof fn lemma_run_clean(s: Seq<char>, z: Seq<char>)
    requires
        !run_has_inner_opening(s),
        no_rule_lines(seq!['\n'] + z),
        no_admonitions(seq!['\n'] + z),
    ensures
        quoted_run_len(s) <= s.len(),
        no_rule_lines(s.take(quoted_run_len(s) as int) + seq!['\n'] + z),
        no_admonitions(s.take(quoted_run_len(s) as int) + seq!['\n'] + z),
    decreases s.len(),
{
    lemma_line_len(s);
    lemma_quoted_run_len(s);
    let e = line_len(s) as int;
    let n = quoted_run_len(s) as int;
    if e < s.len() && is_quoted_line(s.take(e)) {
        let s2 = s.skip(e + 1);
        lemma_run_clean(s2, z);
        let n2 = quoted_run_len(s2) as int;
        let w = s2.take(n2) + seq!['\n'] + z;
        let l = s.take(e);
        assert(s.take(n) + seq!['\n'] + z =~= l + seq!['\n'] + w);
        lemma_cons(l, w);
        lemma_quoted_not_rule(l);
        if is_opening_line(l) {
            assert(!admonition_at(s));
            assert(n2 == 0);
            assert(w =~= seq!['\n'] + z);
            lemma_blank(z);
        }
    } else {
        assert(s.take(0) + seq!['\n'] + z =~= seq!['\n'] + z);
    }
}

/// Where no quoted line starts `s`, none starts what the second pass makes of
/// it.
proof fn lemma_first_line_kept(s: Seq<char>)
    requires
        quoted_run_len(s) == 0,
    ensures
        quoted_run_len(admonitions_expanded(s)) == 0,
{
    lemma_line_len(s);
    let e = line_len(s) as int;
    if admonition_at(s) {
        lemma_opening_quoted(s.take(e));
        assert(false);
    } else {
        lemma_admonitions_line(s);
        if e < s.len() {
            lemma_cons(s.take(e), admonitions_expanded(s.skip(e + 1)));
        }
    }
}

/// The second pass, on a text without rule lines whose blocks settle, leaves
/// neither a rule line nor the start of a block.
proof fn lemma_admonitions_expanded_clean(y: Seq<char>)
    requires
        no_rule_lines(y),
        blocks_settle(y),
    ensures
        no_rule_lines(admonitions_expanded(y)),
        no_admonitions(admonitions_expanded(y)),
    decreases y.len(),
{
    lemma_line_len(y);
    let e = line_len(y) as int;
    if admonition_at(y) {
        lemma_admonitions_block(y);
        let rest = y.skip(e + 1);
        let n = quoted_run_len(rest) as int;
        lemma_quoted_run_len(rest);
        let y2 = rest.skip(n);
        assert(y.skip(e + 1 + n) =~= y2);
        lemma_skip_run(rest);
        lemma_admonitions_expanded_clean(y2);
        let x2 = admonitions_expanded(y2);
        let c = lower_of(opening_label(y.take(e)));
        let close = "</div>"@;
        let open = "<div class=\""@;
        let gt = "\">"@;
        reveal_strlit("</div>");
        reveal_strlit("<div class=\"");
        reveal_strlit("\">");
        reveal_strlit("\">\n\n");
        reveal_strlit("\n</div>\n");
        assert(no_newline(close));
        lemma_markup_line(close);
        lemma_cons(close, x2);
        let z = close + seq!['\n'] + x2;
        lemma_blank(z);
        lemma_run_clean(rest, z);
        let body = rest.take(n);
        assert(body =~= y.subrange(e + 1, e + 1 + n));
        let tail = body + seq!['\n'] + z;
        lemma_blank(tail);
        let d = open + c + gt;
        assert(no_newline(d)) by {
            assert forall|k: int| 0 <= k < d.len() implies d[k] != '\n' by {
                if k < open.len() {
                    assert(d[k] == open[k]);
                } else if k < open.len() + c.len() {
                    assert(d[k] == c[k - open.len()]);
                } else {
                    assert(d[k] == gt[k - open.len() - c.len()]);
                }
            }
        }
        assert(d[0] == '<');
        lemma_markup_line(d);
        lemma_cons(d, seq!['\n'] + tail);
        assert("\">\n\n"@ =~= gt + seq!['\n', '\n']);
        assert("\n</div>\n"@ =~= seq!['\n'] + close + seq!['\n']);
        assert(admonition_markup(c, body) + x2 =~= d + seq!['\n'] + (seq!['\n'] + tail));
    } else {
        lemma_admonitions_line(y);
        if e < y.len() {
            let y2 = y.skip(e + 1);
            lemma_admonitions_expanded_clean(y2);
            let l = y.take(e);
            if is_opening_line(l) {
                lemma_first_line_kept(y2);
            }
            lemma_cons(l, admonitions_expanded(y2));
        }
    }
}

/// A lone rule line `r[id]` with its line break becomes exactly the anchor
/// for `id`, which names `id` in its `id` attribute, its link and its label,
/// followed by the line break the input had.
pub proof fn law_single_rule_line(id: Seq<char>)
    requires
        no_close_bracket(id),
        no_newline(id),
    ensures
        rewritten(seq!['r', '['] + id + seq![']', '\n']) == rule_markup(id) + seq!['\n'],
{
    let empty = Seq::<char>::empty();
    let line = seq!['r', '['] + id + seq![']'];
    let t = seq!['r', '['] + id + seq![']', '\n'];
    assert(t =~= line + seq!['\n'] + empty);
    assert(no_newline(line)) by {
        assert forall|k: int| 0 <= k < line.len() implies line[k] != '\n' by {
            if 2 <= k < line.len() - 1 {
                assert(line[k] == id[k - 2]);
            }
        }
    }
    lemma_cons(line, empty);
    assert(line.subrange(2, line.len() - 1) =~= id);
    assert(line_len(empty) == 0 && empty.take(0) =~= empty);
    assert(rules_expanded(empty) =~= empty);
    assert(rules_expanded(t) =~= rule_markup(id) + seq!['\n']);
    lemma_anchor_line(id);
    let a = anchor_line(id);
    lemma_markup_line(a);
    assert(no_admonitions(empty));
    lemma_blank(empty);
    lemma_cons(a, seq!['\n'] + empty);
    assert(rule_markup(id) + seq!['\n'] =~= a + seq!['\n'] + (seq!['\n'] + empty));
    lemma_admonitions_identity(rule_markup(id) + seq!['\n']);
}

/// Rewriting the result of a rewrite changes nothing, wherever the blocks of
/// the first pass's result settle: no quoted line of a block would start
/// another block (as in `> [!a]` / `> [!b]` / `> x`, where the second
/// rewrite would expand the inner block), and no lowercased label holds a
/// line break.
pub proof fn law_rewrite_settles(t: Seq<char>)
    requires
        blocks_settle(rules_expanded(t)),
    ensures
        rewritten(rewritten(t)) == rewritten(t),
{
    let y = rules_expanded(t);
    lemma_rules_expanded_clean(t);
    lemma_admonitions_expanded_clean(y);
    let x = admonitions_expanded(y);
    lemma_rules_identity(x);
    lemma_admonitions_identity(x);
}

} // verus!
