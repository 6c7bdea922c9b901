//! Layout independence of the rule language: whitespace and comment lines
//! placed before a document do not change the rules it denotes.
//!
//! Every grammar function reads only at and after the position it is given,
//! so parsing `t + s` from `t.len() + i` gives what parsing `s` from `i`
//! gives, with every position moved by `t.len()`.

use vstd::prelude::*;
use crate::grammar::{CharSetView, Dir, RenderingView, RuleView};
use crate::parser::{
    attr_list, attr_pair, char_at, charset_tok, dir_list, dirs_tok, finish_rule, is_space,
    parse_document, pattern3, pattern5, quote_close, quoted, render_at, rule_at, rules_from,
    skip, skip_from, word_at, word_end,
};
use crate::grammar::MatchView;

verus! {

/// Whether `t[i..]`, read from inside a comment if `in_comment`, is made of
/// whitespace and comments, and does not end inside a comment.
pub open spec fn is_layout_from(t: Seq<char>, i: int, in_comment: bool) -> bool
    decreases t.len() - i,
{
    if !(0 <= i < t.len()) {
        !in_comment
    } else if in_comment {
        is_layout_from(t, i + 1, t[i] != '\n')
    } else if is_space(t[i]) {
        is_layout_from(t, i + 1, false)
    } else if t[i] == '#' {
        is_layout_from(t, i + 1, true)
    } else {
        false
    }
}

/// Whether `t` is made of whitespace and complete comment lines.
pub open spec fn is_layout(t: Seq<char>) -> bool {
    is_layout_from(t, 0, false)
}

/// A parse result with its position moved by `n`.
pub open spec fn shift_opt<A>(r: Option<(A, int)>, n: int) -> Option<(A, int)> {
    match r {
        Some((a, j)) => Some((a, j + n)),
        None => None,
    }
}

/// A parse result with its position, or its error position, moved by `n`.
pub open spec fn shift_res<A>(r: Result<(A, int), int>, n: int) -> Result<(A, int), int> {
    match r {
        Ok((a, j)) => Ok((a, j + n)),
        Err(e) => Err(e + n),
    }
}

/// A successful parse from `i` ends after `i` and within the text.
pub open spec fn opt_within<A>(r: Option<(A, int)>, i: int, len: int) -> bool {
    match r {
        Some((_, j)) => i < j <= len,
        None => true,
    }
}

/// A successful parse from `i` ends after `i` and within the text.
pub open spec fn res_within<A>(r: Result<(A, int), int>, i: int, len: int) -> bool {
    match r {
        Ok((_, j)) => i < j <= len,
        Err(_) => true,
    }
}

proof fn lemma_char_at(t: Seq<char>, s: Seq<char>, i: int, c: char)
    requires
        0 <= i,
    ensures
        char_at(t + s, t.len() + i, c) == char_at(s, i, c),
{
    if i < s.len() {
        assert((t + s)[t.len() + i] == s[i]);
    }
}

proof fn lemma_skip_from(t: Seq<char>, s: Seq<char>, i: int, c: bool)
    requires
        0 <= i <= s.len(),
    ensures
        skip_from(t + s, t.len() + i, c) == t.len() + skip_from(s, i, c),
        i <= skip_from(s, i, c) <= s.len(),
    decreases s.len() - i,
{
    if i < s.len() {
        assert((t + s)[t.len() + i] == s[i]);
        if c {
            lemma_skip_from(t, s, i + 1, s[i] != '\n');
        } else {
            lemma_skip_from(t, s, i + 1, is_space(s[i]) == false && s[i] == '#');
            lemma_skip_from(t, s, i + 1, false);
        }
    }
}

proof fn lemma_skip(t: Seq<char>, s: Seq<char>, i: int)
    requires
        0 <= i <= s.len(),
    ensures
        skip(t + s, t.len() + i) == t.len() + skip(s, i),
        i <= skip(s, i) <= s.len(),
{
    lemma_skip_from(t, s, i, false);
}

proof fn lemma_word_end(t: Seq<char>, s: Seq<char>, i: int)
    requires
        0 <= i <= s.len(),
    ensures
        word_end(t + s, t.len() + i) == t.len() + word_end(s, i),
        i <= word_end(s, i) <= s.len(),
    decreases s.len() - i,
{
    if i < s.len() {
        assert((t + s)[t.len() + i] == s[i]);
        lemma_word_end(t, s, i + 1);
    }
}

proof fn lemma_word_at(t: Seq<char>, s: Seq<char>, i: int)
    requires
        0 <= i <= s.len(),
    ensures
        word_at(t + s, t.len() + i) == word_at(s, i),
        word_end(t + s, t.len() + i) == t.len() + word_end(s, i),
        i <= word_end(s, i) <= s.len(),
{
    lemma_word_end(t, s, i);
    assert((t + s).subrange(t.len() + i, t.len() + word_end(s, i)) =~= s.subrange(i, word_end(s, i)));
}

proof fn lemma_quote_close(t: Seq<char>, s: Seq<char>, i: int)
    requires
        0 <= i <= s.len(),
    ensures
        quote_close(t + s, t.len() + i) == t.len() + quote_close(s, i),
        i <= quote_close(s, i) <= s.len(),
    decreases s.len() - i,
{
    if i < s.len() {
        assert((t + s)[t.len() + i] == s[i]);
        lemma_quote_close(t, s, i + 1);
    }
}

proof fn lemma_quoted(t: Seq<char>, s: Seq<char>, i: int)
    requires
        0 <= i <= s.len(),
    ensures
        quoted(t + s, t.len() + i) == shift_opt(quoted(s, i), t.len() as int),
        opt_within(quoted(s, i), i, s.len() as int),
{
    lemma_char_at(t, s, i, '"');
    if char_at(s, i, '"') {
        lemma_quote_close(t, s, i + 1);
        let j = quote_close(s, i + 1);
        if j < s.len() {
            lemma_skip(t, s, j + 1);
            assert((t + s).subrange(t.len() + i + 1, t.len() + j) =~= s.subrange(i + 1, j));
        }
    }
}

proof fn lemma_charset_tok(t: Seq<char>, s: Seq<char>, i: int)
    requires
        0 <= i <= s.len(),
    ensures
        charset_tok(t + s, t.len() + i) == shift_opt(charset_tok(s, i), t.len() as int),
        opt_within(charset_tok(s, i), i, s.len() as int),
{
    let n = t.len() as int;
    lemma_char_at(t, s, i, '\'');
    lemma_char_at(t, s, i + 2, '\'');
    lemma_char_at(t, s, i, '"');
    lemma_quoted(t, s, i);
    lemma_word_at(t, s, i);
    lemma_word_end(t, s, i);
    if char_at(s, i, '\'') && char_at(s, i + 2, '\'') {
        assert((t + s)[n + i + 1] == s[i + 1]);
        lemma_skip(t, s, i + 3);
    }
    lemma_skip(t, s, word_end(s, i));
    if word_at(s, i) == "ANY"@ {
        assert(word_at(s, i).len() == 3) by {
            reveal_strlit("ANY");
        }
    }
}

proof fn lemma_dir_list(t: Seq<char>, s: Seq<char>, i: int)
    requires
        0 <= i <= s.len(),
    ensures
        dir_list(t + s, t.len() + i) == shift_opt(dir_list(s, i), t.len() as int),
        opt_within(dir_list(s, i), i, s.len() as int),
    decreases s.len() - i,
{
    let n = t.len() as int;
    lemma_word_at(t, s, i);
    lemma_word_end(t, s, i);
    let j = skip(s, word_end(s, i));
    lemma_skip(t, s, word_end(s, i));
    lemma_char_at(t, s, j, ')');
    lemma_char_at(t, s, j, ',');
    if char_at(s, j, ')') {
        lemma_skip(t, s, j + 1);
    }
    if char_at(s, j, ',') {
        lemma_skip(t, s, j + 1);
        let k = skip(s, j + 1);
        if i < k <= s.len() {
            lemma_dir_list(t, s, k);
        }
    }
}

proof fn lemma_dirs_tok(t: Seq<char>, s: Seq<char>, i: int)
    requires
        0 <= i <= s.len(),
    ensures
        dirs_tok(t + s, t.len() + i) == shift_opt(dirs_tok(s, i), t.len() as int),
        opt_within(dirs_tok(s, i), i, s.len() as int),
{
    lemma_char_at(t, s, i, '(');
    lemma_word_at(t, s, i);
    lemma_word_end(t, s, i);
    if char_at(s, i, '(') {
        lemma_skip(t, s, i + 1);
        lemma_dir_list(t, s, skip(s, i + 1));
    }
    lemma_skip(t, s, word_end(s, i));
    if word_at(s, i) == "ANY"@ {
        assert(word_at(s, i).len() == 3) by {
            reveal_strlit("ANY");
        }
    }
}

proof fn lemma_attr_pair(t: Seq<char>, s: Seq<char>, i: int)
    requires
        0 <= i <= s.len(),
    ensures
        attr_pair(t + s, t.len() + i) == shift_opt(attr_pair(s, i), t.len() as int),
        opt_within(attr_pair(s, i), i, s.len() as int),
{
    lemma_char_at(t, s, i, '(');
    if char_at(s, i, '(') {
        lemma_skip(t, s, i + 1);
        lemma_quoted(t, s, skip(s, i + 1));
        if let Some((k, j)) = quoted(s, skip(s, i + 1)) {
            lemma_char_at(t, s, j, ',');
            if char_at(s, j, ',') {
                lemma_skip(t, s, j + 1);
                lemma_quoted(t, s, skip(s, j + 1));
                if let Some((v, e)) = quoted(s, skip(s, j + 1)) {
                    lemma_char_at(t, s, e, ')');
                    if char_at(s, e, ')') {
                        lemma_skip(t, s, e + 1);
                    }
                }
            }
        }
    }
}

proof fn lemma_attr_list(t: Seq<char>, s: Seq<char>, i: int)
    requires
        0 <= i <= s.len(),
    ensures
        attr_list(t + s, t.len() + i) == shift_opt(attr_list(s, i), t.len() as int),
        opt_within(attr_list(s, i), i, s.len() as int),
    decreases s.len() - i,
{
    lemma_attr_pair(t, s, i);
    if let Some((p, j)) = attr_pair(s, i) {
        lemma_char_at(t, s, j, ']');
        lemma_char_at(t, s, j, ',');
        if j + 1 <= s.len() {
            lemma_skip(t, s, j + 1);
        }
        if char_at(s, j, ',') {
            let k = skip(s, j + 1);
            if i < k <= s.len() {
                lemma_attr_list(t, s, k);
            }
        }
    }
}

proof fn lemma_render_at(t: Seq<char>, s: Seq<char>, i: int)
    requires
        0 <= i <= s.len(),
    ensures
        render_at(t + s, t.len() + i) == shift_res(render_at(s, i), t.len() as int),
        res_within(render_at(s, i), i, s.len() as int),
{
    lemma_word_at(t, s, i);
    if word_at(s, i) == "draw"@ {
        assert(word_at(s, i).len() == 4) by {
            reveal_strlit("draw");
        }
        lemma_skip(t, s, word_end(s, i));
        let p = skip(s, word_end(s, i));
        lemma_quoted(t, s, p);
        if let Some((txt, q)) = quoted(s, p) {
            lemma_word_at(t, s, q);
            lemma_skip(t, s, word_end(s, q));
            let k = skip(s, word_end(s, q));
            lemma_char_at(t, s, k, '[');
            if char_at(s, k, '[') {
                lemma_skip(t, s, k + 1);
                lemma_attr_list(t, s, skip(s, k + 1));
            }
        }
    }
}

proof fn lemma_pattern3(t: Seq<char>, s: Seq<char>, i: int)
    requires
        0 <= i <= s.len(),
    ensures
        pattern3(t + s, t.len() + i) == shift_res(pattern3(s, i), t.len() as int),
        res_within(pattern3(s, i), i, s.len() as int),
{
    lemma_charset_tok(t, s, i);
    if let Some((a, j)) = charset_tok(s, i) {
        lemma_dirs_tok(t, s, j);
        if let Some((d, k)) = dirs_tok(s, j) {
            lemma_charset_tok(t, s, k);
        }
    }
}

proof fn lemma_pattern5(t: Seq<char>, s: Seq<char>, i: int)
    requires
        0 <= i <= s.len(),
    ensures
        pattern5(t + s, t.len() + i) == shift_res(pattern5(s, i), t.len() as int),
        res_within(pattern5(s, i), i, s.len() as int),
{
    lemma_pattern3(t, s, i);
    if let Ok((abc, j)) = pattern3(s, i) {
        lemma_dirs_tok(t, s, j);
        if let Some((d, k)) = dirs_tok(s, j) {
            lemma_charset_tok(t, s, k);
        }
    }
}

proof fn lemma_finish_rule(t: Seq<char>, s: Seq<char>, pat: MatchView, j: int)
    requires
        0 <= j <= s.len(),
    ensures
        finish_rule(t + s, pat, t.len() + j) == shift_res(finish_rule(s, pat, j), t.len() as int),
        res_within(finish_rule(s, pat, j), j, s.len() as int),
{
    lemma_render_at(t, s, j);
    if let Ok((r, k)) = render_at(s, j) {
        lemma_char_at(t, s, k, ';');
        if char_at(s, k, ';') {
            lemma_skip(t, s, k + 1);
        }
    }
}

proof fn lemma_rule_at(t: Seq<char>, s: Seq<char>, i: int)
    requires
        0 <= i <= s.len(),
    ensures
        rule_at(t + s, t.len() + i) == shift_res(rule_at(s, i), t.len() as int),
        res_within(rule_at(s, i), i, s.len() as int),
{
    lemma_word_at(t, s, i);
    lemma_skip(t, s, word_end(s, i));
    let p = skip(s, word_end(s, i));
    lemma_pattern5(t, s, p);
    lemma_pattern3(t, s, p);
    if let Ok((x, j)) = pattern5(s, p) {
        let kw = word_at(s, i);
        let (a, d1, b, d2, c) = x;
        lemma_finish_rule(t, s, MatchView::Loop(a, d1, b, d2, c), j);
        lemma_finish_rule(t, s, MatchView::Step(a, d1, b, d2, c), j);
    }
    if let Ok((x, j)) = pattern3(s, p) {
        let (a, d, b) = x;
        lemma_finish_rule(t, s, MatchView::Start(a, d, b), j);
        lemma_finish_rule(t, s, MatchView::End(a, d, b), j);
    }
}

proof fn lemma_rules_from(t: Seq<char>, s: Seq<char>, i: int)
    requires
        0 <= i <= s.len(),
    ensures
        rules_from(t + s, t.len() + i) == match rules_from(s, i) {
            Ok(rs) => Ok(rs),
            Err(e) => Err::<Seq<RuleView>, int>(e + t.len()),
        },
    decreases s.len() - i,
{
    if i < s.len() {
        lemma_rule_at(t, s, i);
        if let Ok((r, j)) = rule_at(s, i) {
            lemma_rules_from(t, s, j);
        }
    }
}

/// From inside leading layout, the next token is where the layout ends.
proof fn lemma_skip_layout(t: Seq<char>, s: Seq<char>, i: int, c: bool)
    requires
        0 <= i <= t.len(),
        is_layout_from(t, i, c),
    ensures
        skip_from(t + s, i, c) == skip_from(t + s, t.len() as int, false),
    decreases t.len() - i,
{
    if i < t.len() {
        assert((t + s)[i] == t[i]);
        if c {
            lemma_skip_layout(t, s, i + 1, t[i] != '\n');
        } else if is_space(t[i]) {
            lemma_skip_layout(t, s, i + 1, false);
        } else {
            lemma_skip_layout(t, s, i + 1, true);
        }
    }
}

/// Whitespace and complete comment lines placed before a rule document do
/// not change the rules it denotes; where the document does not fit the
/// grammar, the error lies at the same token, moved by the added length.
pub proof fn leading_layout_keeps_rules(t: Seq<char>, s: Seq<char>)
    requires
        is_layout(t),
    ensures
        parse_document(t + s) == match parse_document(s) {
            Ok(rs) => Ok(rs),
            Err(e) => Err::<Seq<RuleView>, int>(e + t.len()),
        },
{
    lemma_skip_layout(t, s, 0, false);
    lemma_skip(t, s, 0);
    lemma_rules_from(t, s, skip(s, 0));
}

} // verus!
