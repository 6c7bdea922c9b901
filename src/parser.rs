//! The rule language: its grammar as spec functions over the characters of a
//! document, and the parser proved to follow it.
//!
//! ```text
//! document := (comment | rule)*
//! comment  := '#' .* '\n'
//! rule     := ('loop' | 'step') charset dirs charset dirs charset render ';'
//!           | ('start' | 'end') charset dirs charset render ';'
//! charset  := "'" CHAR "'" | '"' CHAR+ '"' | 'ANY'
//! dirs     := '(' DIR (',' DIR)* ')' | 'ANY'
//! render   := 'draw' STRING ['attrs' '[' pair (',' pair)* ']']
//! pair     := '(' STRING ',' STRING ')'
//! ```
//! Quoted text is taken literally: there are no escapes. Whitespace and
//! comments may stand between any two tokens.

use vstd::prelude::*;
use vstd::string::StrSliceExecFns;
use crate::grammar::{
    all_dirs_seq, attrs_view, chars_of, rules_view, CharSet, CharSetView, Dir, Dirs, Match, MatchView,
    Rendering, RenderingView, Rule, RuleView,
};

verus! {

/// Whitespace between tokens.
pub open spec fn is_space(c: char) -> bool {
    c == ' ' || c == '\t' || c == '\n' || c == '\r'
}

/// A letter of a keyword or direction name.
pub open spec fn is_letter(c: char) -> bool {
    ('A' <= c && c <= 'Z') || ('a' <= c && c <= 'z')
}

/// The first position at or after `i` that is neither whitespace nor inside a
/// comment; `in_comment` says whether `i` lies inside a comment.
pub open spec fn skip_from(s: Seq<char>, i: int, in_comment: bool) -> int
    decreases s.len() - i,
{
    if !(0 <= i < s.len()) {
        i
    } else if in_comment {
        skip_from(s, i + 1, s[i] != '\n')
    } else if is_space(s[i]) {
        skip_from(s, i + 1, false)
    } else if s[i] == '#' {
        skip_from(s, i + 1, true)
    } else {
        i
    }
}

/// The start of the next token at or after `i`.
pub open spec fn skip(s: Seq<char>, i: int) -> int {
    skip_from(s, i, false)
}

/// The end of the run of letters that starts at `i`.
pub open spec fn word_end(s: Seq<char>, i: int) -> int
    decreases s.len() - i,
{
    if 0 <= i < s.len() && is_letter(s[i]) {
        word_end(s, i + 1)
    } else {
        i
    }
}

/// The run of letters that starts at `i`.
pub open spec fn word_at(s: Seq<char>, i: int) -> Seq<char> {
    s.subrange(i, word_end(s, i))
}

/// The first double quote at or after `i`, or the end of the text.
pub open spec fn quote_close(s: Seq<char>, i: int) -> int
    decreases s.len() - i,
{
    if 0 <= i < s.len() && s[i] != '"' {
        quote_close(s, i + 1)
    } else {
        i
    }
}

/// Whether position `i` holds `c`.
pub open spec fn char_at(s: Seq<char>, i: int, c: char) -> bool {
    0 <= i < s.len() && s[i] == c
}

/// A double-quoted string at `i`: its contents, and the next token after it.
pub open spec fn quoted(s: Seq<char>, i: int) -> Option<(Seq<char>, int)> {
    if char_at(s, i, '"') && quote_close(s, i + 1) < s.len() {
        Some((s.subrange(i + 1, quote_close(s, i + 1)), skip(s, quote_close(s, i + 1) + 1)))
    } else {
        None
    }
}

/// A character-set token at `i`, and the next token after it.
pub open spec fn charset_tok(s: Seq<char>, i: int) -> Option<(CharSetView, int)> {
    if char_at(s, i, '\'') {
        if char_at(s, i + 2, '\'') {
            Some((CharSetView::Char(s[i + 1]), skip(s, i + 3)))
        } else {
            None
        }
    } else if char_at(s, i, '"') {
        match quoted(s, i) {
            Some((t, j)) => if t.len() > 0 {
                Some((CharSetView::Str(t), j))
            } else {
                None
            },
            None => None,
        }
    } else if word_at(s, i) == "ANY"@ {
        Some((CharSetView::Any, skip(s, word_end(s, i))))
    } else {
        None
    }
}

/// The direction a name denotes.
pub open spec fn dir_named(w: Seq<char>) -> Option<Dir> {
    if w == "N"@ {
        Some(Dir::N)
    } else if w == "NE"@ {
        Some(Dir::NE)
    } else if w == "E"@ {
        Some(Dir::E)
    } else if w == "SE"@ {
        Some(Dir::SE)
    } else if w == "S"@ {
        Some(Dir::S)
    } else if w == "SW"@ {
        Some(Dir::SW)
    } else if w == "W"@ {
        Some(Dir::W)
    } else if w == "NW"@ {
        Some(Dir::NW)
    } else {
        None
    }
}

/// The rest of a parenthesised direction list from the name at `i` on, and
/// the next token after its closing parenthesis.
pub open spec fn dir_list(s: Seq<char>, i: int) -> Option<(Seq<Dir>, int)>
    decreases s.len() - i,
{
    match dir_named(word_at(s, i)) {
        None => None,
        Some(d) => {
            let j = skip(s, word_end(s, i));
            if char_at(s, j, ')') {
                Some((seq![d], skip(s, j + 1)))
            } else if char_at(s, j, ',') && i < skip(s, j + 1) <= s.len() {
                match dir_list(s, skip(s, j + 1)) {
                    Some((ds, e)) => Some((seq![d] + ds, e)),
                    None => None,
                }
            } else {
                None
            }
        },
    }
}

/// A direction-list token at `i`, and the next token after it.
pub open spec fn dirs_tok(s: Seq<char>, i: int) -> Option<(Seq<Dir>, int)> {
    if char_at(s, i, '(') {
        dir_list(s, skip(s, i + 1))
    } else if word_at(s, i) == "ANY"@ {
        Some((all_dirs_seq(), skip(s, word_end(s, i))))
    } else {
        None
    }
}

/// An attribute pair `("key", "value")` at `i`, and the next token after it.
pub open spec fn attr_pair(s: Seq<char>, i: int) -> Option<((Seq<char>, Seq<char>), int)> {
    if !char_at(s, i, '(') {
        None
    } else {
        match quoted(s, skip(s, i + 1)) {
            None => None,
            Some((k, j)) => if !char_at(s, j, ',') {
                None
            } else {
                match quoted(s, skip(s, j + 1)) {
                    None => None,
                    Some((v, e)) => if char_at(s, e, ')') {
                        Some(((k, v), skip(s, e + 1)))
                    } else {
                        None
                    },
                }
            },
        }
    }
}

/// The rest of a bracketed attribute list from the pair at `i` on, and the
/// next token after its closing bracket.
pub open spec fn attr_list(s: Seq<char>, i: int) -> Option<(Seq<(Seq<char>, Seq<char>)>, int)>
    decreases s.len() - i,
{
    match attr_pair(s, i) {
        None => None,
        Some((p, j)) => if char_at(s, j, ']') {
            Some((seq![p], skip(s, j + 1)))
        } else if char_at(s, j, ',') && i < skip(s, j + 1) <= s.len() {
            match attr_list(s, skip(s, j + 1)) {
                Some((ps, e)) => Some((seq![p] + ps, e)),
                None => None,
            }
        } else {
            None
        },
    }
}

/// A `draw` clause with its optional `attrs` at `i`, and the next token
/// after it; on failure, the position of the offending token.
pub open spec fn render_at(s: Seq<char>, i: int) -> Result<(RenderingView, int), int> {
    if word_at(s, i) != "draw"@ {
        Err(i)
    } else {
        let p = skip(s, word_end(s, i));
        match quoted(s, p) {
            None => Err(p),
            Some((t, q)) => if word_at(s, q) != "attrs"@ {
                Ok((RenderingView { draw: t, attrs: None }, q))
            } else {
                let k = skip(s, word_end(s, q));
                if !char_at(s, k, '[') {
                    Err(k)
                } else {
                    match attr_list(s, skip(s, k + 1)) {
                        None => Err(skip(s, k + 1)),
                        Some((ps, e)) => Ok((RenderingView { draw: t, attrs: Some(ps) }, e)),
                    }
                }
            },
        }
    }
}

/// The three pattern arguments of `start` and `end` at `i`.
pub open spec fn pattern3(s: Seq<char>, i: int) -> Result<
    ((CharSetView, Seq<Dir>, CharSetView), int),
    int,
> {
    match charset_tok(s, i) {
        None => Err(i),
        Some((a, j)) => match dirs_tok(s, j) {
            None => Err(j),
            Some((d, k)) => match charset_tok(s, k) {
                None => Err(k),
                Some((b, e)) => Ok(((a, d, b), e)),
            },
        },
    }
}

/// The five pattern arguments of `loop` and `step` at `i`.
pub open spec fn pattern5(s: Seq<char>, i: int) -> Result<
    ((CharSetView, Seq<Dir>, CharSetView, Seq<Dir>, CharSetView), int),
    int,
> {
    match pattern3(s, i) {
        Err(e) => Err(e),
        Ok(((a, d1, b), j)) => match dirs_tok(s, j) {
            None => Err(j),
            Some((d2, k)) => match charset_tok(s, k) {
                None => Err(k),
                Some((c, e)) => Ok(((a, d1, b, d2, c), e)),
            },
        },
    }
}

/// The rule whose pattern is parsed, given its keyword, with its rendering
/// and terminating `;` after the pattern at `j`.
pub open spec fn finish_rule(s: Seq<char>, pat: MatchView, j: int) -> Result<(RuleView, int), int> {
    match render_at(s, j) {
        Err(e) => Err(e),
        Ok((r, k)) => if char_at(s, k, ';') {
            Ok((RuleView { pat, render: r }, skip(s, k + 1)))
        } else {
            Err(k)
        },
    }
}

/// One rule statement at `i`, and the next token after its `;`; on failure,
/// the position of the offending token.
pub open spec fn rule_at(s: Seq<char>, i: int) -> Result<(RuleView, int), int> {
    let kw = word_at(s, i);
    let p = skip(s, word_end(s, i));
    if kw == "loop"@ || kw == "step"@ {
        match pattern5(s, p) {
            Err(e) => Err(e),
            Ok(((a, d1, b, d2, c), j)) => finish_rule(
                s,
                if kw == "loop"@ {
                    MatchView::Loop(a, d1, b, d2, c)
                } else {
                    MatchView::Step(a, d1, b, d2, c)
                },
                j,
            ),
        }
    } else if kw == "start"@ || kw == "end"@ {
        match pattern3(s, p) {
            Err(e) => Err(e),
            Ok(((a, d, b), j)) => finish_rule(
                s,
                if kw == "start"@ {
                    MatchView::Start(a, d, b)
                } else {
                    MatchView::End(a, d, b)
                },
                j,
            ),
        }
    } else {
        Err(i)
    }
}

/// The rules from the token at `i` to the end of the text, in order; on
/// failure, the position of the offending token.
pub open spec fn rules_from(s: Seq<char>, i: int) -> Result<Seq<RuleView>, int>
    decreases s.len() - i,
{
    if !(0 <= i < s.len()) {
        Ok(Seq::empty())
    } else {
        match rule_at(s, i) {
            Err(e) => Err(e),
            Ok((r, j)) => if i < j <= s.len() {
                match rules_from(s, j) {
                    Ok(rs) => Ok(seq![r] + rs),
                    Err(e) => Err(e),
                }
            } else {
                Err(i)
            },
        }
    }
}

/// The meaning of a whole rule document: its rules in order, or the position
/// of the first token that does not fit the grammar.
pub open spec fn parse_document(s: Seq<char>) -> Result<Seq<RuleView>, int> {
    rules_from(s, skip(s, 0))
}

/// Appending one element, then a sequence, is appending both at once.
proof fn lemma_push_concat<A>(a: Seq<A>, x: A, b: Seq<A>)
    ensures
        a + (seq![x] + b) == a.push(x) + b,
{
    assert(a + (seq![x] + b) =~= a.push(x) + b);
}

/// A rule document together with its characters, indexed by position.
struct Source<'a> {
    text: &'a str,
    chars: Vec<char>,
}

impl<'a> View for Source<'a> {
    type V = Seq<char>;

    closed spec fn view(&self) -> Seq<char> {
        self.chars@
    }
}

impl<'a> Source<'a> {
    spec fn wf(&self) -> bool {
        self.chars@ == self.text@
    }

    fn new(text: &'a str) -> (r: Source<'a>)
        ensures
            r.wf(),
            r@ == text@,
    {
        Source { text, chars: chars_of(text) }
    }

    fn len(&self) -> (r: usize)
        ensures
            r == self@.len(),
    {
        self.chars.len()
    }

    fn is(&self, i: usize, c: char) -> (r: bool)
        ensures
            r == char_at(self@, i as int, c),
            r ==> i < self@.len(),
            self@.len() <= usize::MAX,
    {
        i < self.chars.len() && self.chars[i] == c
    }

    /// The text between two positions, as an owned string.
    fn text_between(&self, a: usize, b: usize) -> (r: String)
        requires
            self.wf(),
            a <= b <= self@.len(),
        ensures
            r@ == self@.subrange(a as int, b as int),
    {
        self.text.substring_char(a, b).to_owned()
    }

    fn skip(&self, i: usize) -> (r: usize)
        requires
            i <= self@.len(),
        ensures
            r as int == skip(self@, i as int),
            i <= r <= self@.len(),
    {
        let mut p = i;
        let mut in_comment = false;
        while p < self.chars.len()
            invariant
                i <= p <= self@.len(),
                skip_from(self@, p as int, in_comment) == skip(self@, i as int),
            decreases self@.len() - p,
        {
            let c = self.chars[p];
            if in_comment {
                in_comment = c != '\n';
            } else if c == ' ' || c == '\t' || c == '\n' || c == '\r' {
            } else if c == '#' {
                in_comment = true;
            } else {
                return p;
            }
            p = p + 1;
        }
        p
    }

    fn word_end(&self, i: usize) -> (r: usize)
        requires
            i <= self@.len(),
        ensures
            r as int == word_end(self@, i as int),
            i <= r <= self@.len(),
    {
        let mut p = i;
        while p < self.chars.len() && (('A' <= self.chars[p] && self.chars[p] <= 'Z') || ('a'
            <= self.chars[p] && self.chars[p] <= 'z'))
            invariant
                i <= p <= self@.len(),
                word_end(self@, p as int) == word_end(self@, i as int),
            decreases self@.len() - p,
        {
            p = p + 1;
        }
        p
    }

    fn quote_close(&self, i: usize) -> (r: usize)
        requires
            i <= self@.len(),
        ensures
            r as int == quote_close(self@, i as int),
            i <= r <= self@.len(),
    {
        let mut p = i;
        while p < self.chars.len() && self.chars[p] != '"'
            invariant
                i <= p <= self@.len(),
                quote_close(self@, p as int) == quote_close(self@, i as int),
            decreases self@.len() - p,
        {
            p = p + 1;
        }
        p
    }

    /// Whether the text between two positions is `lit`.
    fn word_is(&self, i: usize, e: usize, lit: &str) -> (r: bool)
        requires
            i <= e <= self@.len(),
        ensures
            r == (self@.subrange(i as int, e as int) == lit@),
    {
        let w = chars_of(lit);
        if e - i != w.len() {
            assert(self@.subrange(i as int, e as int).len() != lit@.len());
            return false;
        }
        let mut k: usize = 0;
        while k < w.len()
            invariant
                i <= e <= self@.len(),
                e - i == w@.len(),
                w@ == lit@,
                k <= w@.len(),
                forall|j: int| 0 <= j < k ==> self@[i + j] == w@[j],
            decreases w@.len() - k,
        {
            if self.chars[i + k] != w[k] {
                assert(self@.subrange(i as int, e as int)[k as int] != lit@[k as int]);
                return false;
            }
            k = k + 1;
        }
        assert(self@.subrange(i as int, e as int) =~= lit@);
        true
    }

    /// Whether the word at `i` is `lit`.
    fn word_at_is(&self, i: usize, lit: &str) -> (r: bool)
        requires
            i <= self@.len(),
        ensures
            r == (word_at(self@, i as int) == lit@),
    {
        let e = self.word_end(i);
        self.word_is(i, e, lit)
    }
    fn read_quoted(&self, i: usize) -> (r: Option<(String, usize)>)
        requires
            self.wf(),
            i <= self@.len(),
        ensures
            match r {
                Some((t, j)) => quoted(self@, i as int) == Some((t@, j as int)) && i < j
                    <= self@.len(),
                None => quoted(self@, i as int) is None,
            },
    {
        if self.is(i, '"') {
            let e = self.quote_close(i + 1);
            if e < self.len() {
                let t = self.text_between(i + 1, e);
                let j = self.skip(e + 1);
                return Some((t, j));
            }
        }
        None
    }

    fn read_charset(&self, i: usize) -> (r: Option<(CharSet, usize)>)
        requires
            self.wf(),
            i <= self@.len(),
        ensures
            match r {
                Some((c, j)) => charset_tok(self@, i as int) == Some((c@, j as int)) && i < j
                    <= self@.len(),
                None => charset_tok(self@, i as int) is None,
            },
    {
        if self.is(i, '\'') {
            if self.len() - i > 2 && self.is(i + 2, '\'') {
                let c = self.chars[i + 1];
                let j = self.skip(i + 3);
                Some((CharSet::Char(c), j))
            } else {
                None
            }
        } else if self.is(i, '"') {
            match self.read_quoted(i) {
                Some((t, j)) => if t.as_str().unicode_len() > 0 {
                    Some((CharSet::String(t), j))
                } else {
                    None
                },
                None => None,
            }
        } else if self.word_at_is(i, "ANY") {
            let e = self.word_end(i);
            let j = self.skip(e);
            assert(word_at(self@, i as int).len() == 3) by {
                reveal_strlit("ANY");
            }
            Some((CharSet::Any, j))
        } else {
            None
        }
    }

    fn read_dir_name(&self, i: usize, e: usize) -> (r: Option<Dir>)
        requires
            i <= e <= self@.len(),
        ensures
            r == dir_named(self@.subrange(i as int, e as int)),
    {
        if self.word_is(i, e, "N") {
            Some(Dir::N)
        } else if self.word_is(i, e, "NE") {
            Some(Dir::NE)
        } else if self.word_is(i, e, "E") {
            Some(Dir::E)
        } else if self.word_is(i, e, "SE") {
            Some(Dir::SE)
        } else if self.word_is(i, e, "S") {
            Some(Dir::S)
        } else if self.word_is(i, e, "SW") {
            Some(Dir::SW)
        } else if self.word_is(i, e, "W") {
            Some(Dir::W)
        } else if self.word_is(i, e, "NW") {
            Some(Dir::NW)
        } else {
            None
        }
    }

    fn read_dir_list(&self, i: usize) -> (r: Option<(Vec<Dir>, usize)>)
        requires
            i <= self@.len(),
        ensures
            match r {
                Some((ds, j)) => dir_list(self@, i as int) == Some((ds@, j as int)) && i < j
                    <= self@.len(),
                None => dir_list(self@, i as int) is None,
            },
    {
        let mut acc: Vec<Dir> = Vec::new();
        let mut p = i;
        loop
            invariant
                i <= p <= self@.len(),
                dir_list(self@, i as int) == match dir_list(self@, p as int) {
                    Some((ds, e)) => Some((acc@ + ds, e)),
                    None => None,
                },
            decreases self@.len() - p,
        {
            let e = self.word_end(p);
            let d = match self.read_dir_name(p, e) {
                None => {
                    return None;
                },
                Some(d) => d,
            };
            let j = self.skip(e);
            if self.is(j, ')') {
                let k = self.skip(j + 1);
                proof {
                    assert(acc@ + seq![d] == acc@.push(d));
                }
                acc.push(d);
                return Some((acc, k));
            } else if self.is(j, ',') {
                let k = self.skip(j + 1);
                proof {
                    if let Some((ds, f)) = dir_list(self@, k as int) {
                        lemma_push_concat(acc@, d, ds);
                    }
                }
                acc.push(d);
                p = k;
            } else {
                return None;
            }
        }
    }

    fn read_dirs(&self, i: usize) -> (r: Option<(Dirs, usize)>)
        requires
            i <= self@.len(),
        ensures
            match r {
                Some((ds, j)) => dirs_tok(self@, i as int) == Some((ds@, j as int)) && i < j
                    <= self@.len(),
                None => dirs_tok(self@, i as int) is None,
            },
    {
        if self.is(i, '(') {
            let k = self.skip(i + 1);
            match self.read_dir_list(k) {
                Some((ds, j)) => Some((Dirs(ds), j)),
                None => None,
            }
        } else if self.word_at_is(i, "ANY") {
            let e = self.word_end(i);
            let j = self.skip(e);
            assert(word_at(self@, i as int).len() == 3) by {
                reveal_strlit("ANY");
            }
            Some((Dirs::all(), j))
        } else {
            None
        }
    }

    fn read_attr_pair(&self, i: usize) -> (r: Option<((String, String), usize)>)
        requires
            self.wf(),
            i <= self@.len(),
        ensures
            match r {
                Some((kv, j)) => attr_pair(self@, i as int) == Some(((kv.0@, kv.1@), j as int))
                    && i < j <= self@.len(),
                None => attr_pair(self@, i as int) is None,
            },
    {
        if !self.is(i, '(') {
            return None;
        }
        let (k, j) = match self.read_quoted(self.skip(i + 1)) {
            None => {
                return None;
            },
            Some(kj) => kj,
        };
        if !self.is(j, ',') {
            return None;
        }
        let (v, e) = match self.read_quoted(self.skip(j + 1)) {
            None => {
                return None;
            },
            Some(ve) => ve,
        };
        if !self.is(e, ')') {
            return None;
        }
        Some(((k, v), self.skip(e + 1)))
    }

    fn read_attr_list(&self, i: usize) -> (r: Option<(Vec<(String, String)>, usize)>)
        requires
            self.wf(),
            i <= self@.len(),
        ensures
            match r {
                Some((ps, j)) => attr_list(self@, i as int) == Some((attrs_view(ps@), j as int))
                    && i < j <= self@.len(),
                None => attr_list(self@, i as int) is None,
            },
    {
        let mut acc: Vec<(String, String)> = Vec::new();
        let mut p = i;
        assert(attrs_view(acc@) =~= Seq::empty());
        loop
            invariant
                self.wf(),
                i <= p <= self@.len(),
                attr_list(self@, i as int) == match attr_list(self@, p as int) {
                    Some((ps, e)) => Some((attrs_view(acc@) + ps, e)),
                    None => None,
                },
            decreases self@.len() - p,
        {
            let (kv, j) = match self.read_attr_pair(p) {
                None => {
                    return None;
                },
                Some(pj) => pj,
            };
            let ghost before = acc@;
            let ghost pv = (kv.0@, kv.1@);
            if self.is(j, ']') {
                let k = self.skip(j + 1);
                acc.push(kv);
                assert(attrs_view(acc@) =~= attrs_view(before) + seq![pv]);
                return Some((acc, k));
            } else if self.is(j, ',') {
                let k = self.skip(j + 1);
                acc.push(kv);
                assert(attrs_view(acc@) =~= attrs_view(before).push(pv));
                proof {
                    if let Some((ps, f)) = attr_list(self@, k as int) {
                        lemma_push_concat(attrs_view(before), pv, ps);
                    }
                }
                p = k;
            } else {
                return None;
            }
        }
    }
    fn read_render(&self, i: usize) -> (r: Result<(Rendering, usize), usize>)
        requires
            self.wf(),
            i <= self@.len(),
        ensures
            match r {
                Ok((rd, j)) => render_at(self@, i as int) == Ok::<_, int>((rd@, j as int)) && i < j
                    <= self@.len(),
                Err(e) => render_at(self@, i as int) == Err::<(RenderingView, int), _>(e as int),
            },
    {
        if !self.word_at_is(i, "draw") {
            return Err(i);
        }
        let p = self.skip(self.word_end(i));
        let (t, q) = match self.read_quoted(p) {
            None => {
                return Err(p);
            },
            Some(tq) => tq,
        };
        if !self.word_at_is(q, "attrs") {
            return Ok((Rendering { draw: t, attrs: None }, q));
        }
        let k = self.skip(self.word_end(q));
        if !self.is(k, '[') {
            return Err(k);
        }
        let a = self.skip(k + 1);
        match self.read_attr_list(a) {
            None => Err(a),
            Some((ps, e)) => Ok((Rendering { draw: t, attrs: Some(ps) }, e)),
        }
    }

    fn read_pattern3(&self, i: usize) -> (r: Result<((CharSet, Dirs, CharSet), usize), usize>)
        requires
            self.wf(),
            i <= self@.len(),
        ensures
            match r {
                Ok(((a, d, b), j)) => pattern3(self@, i as int) == Ok::<_, int>(
                    ((a@, d@, b@), j as int),
                ) && i < j <= self@.len(),
                Err(e) => pattern3(self@, i as int) == Err::<
                    ((CharSetView, Seq<Dir>, CharSetView), int),
                    _,
                >(e as int),
            },
    {
        let (a, j) = match self.read_charset(i) {
            None => {
                return Err(i);
            },
            Some(aj) => aj,
        };
        let (d, k) = match self.read_dirs(j) {
            None => {
                return Err(j);
            },
            Some(dk) => dk,
        };
        match self.read_charset(k) {
            None => Err(k),
            Some((b, e)) => Ok(((a, d, b), e)),
        }
    }

    fn read_pattern5(&self, i: usize) -> (r: Result<
        ((CharSet, Dirs, CharSet, Dirs, CharSet), usize),
        usize,
    >)
        requires
            self.wf(),
            i <= self@.len(),
        ensures
            match r {
                Ok(((a, d1, b, d2, c), j)) => pattern5(self@, i as int) == Ok::<_, int>(
                    ((a@, d1@, b@, d2@, c@), j as int),
                ) && i < j <= self@.len(),
                Err(e) => pattern5(self@, i as int) == Err::<
                    ((CharSetView, Seq<Dir>, CharSetView, Seq<Dir>, CharSetView), int),
                    _,
                >(e as int),
            },
    {
        let ((a, d1, b), j) = match self.read_pattern3(i) {
            Err(e) => {
                return Err(e);
            },
            Ok(x) => x,
        };
        let (d2, k) = match self.read_dirs(j) {
            None => {
                return Err(j);
            },
            Some(dk) => dk,
        };
        match self.read_charset(k) {
            None => Err(k),
            Some((c, e)) => Ok(((a, d1, b, d2, c), e)),
        }
    }

    fn read_finish(&self, pat: Match, j: usize) -> (r: Result<(Rule, usize), usize>)
        requires
            self.wf(),
            j <= self@.len(),
        ensures
            match r {
                Ok((rl, k)) => finish_rule(self@, pat@, j as int) == Ok::<_, int>((rl@, k as int))
                    && j < k <= self@.len(),
                Err(e) => finish_rule(self@, pat@, j as int) == Err::<(RuleView, int), _>(e as int),
            },
    {
        let (render, k) = match self.read_render(j) {
            Err(e) => {
                return Err(e);
            },
            Ok(rk) => rk,
        };
        if !self.is(k, ';') {
            return Err(k);
        }
        Ok((Rule { pat, render }, self.skip(k + 1)))
    }

    fn read_rule(&self, i: usize) -> (r: Result<(Rule, usize), usize>)
        requires
            self.wf(),
            i <= self@.len(),
        ensures
            match r {
                Ok((rl, j)) => rule_at(self@, i as int) == Ok::<_, int>((rl@, j as int)) && i < j
                    <= self@.len(),
                Err(e) => rule_at(self@, i as int) == Err::<(RuleView, int), _>(e as int),
            },
    {
        let p = self.skip(self.word_end(i));
        let is_loop = self.word_at_is(i, "loop");
        let is_start = self.word_at_is(i, "start");
        if is_loop || self.word_at_is(i, "step") {
            match self.read_pattern5(p) {
                Err(e) => Err(e),
                Ok(((a, d1, b, d2, c), j)) => {
                    let pat = if is_loop {
                        Match::Loop(a, d1, b, d2, c)
                    } else {
                        Match::Step(a, d1, b, d2, c)
                    };
                    self.read_finish(pat, j)
                },
            }
        } else if is_start || self.word_at_is(i, "end") {
            match self.read_pattern3(p) {
                Err(e) => Err(e),
                Ok(((a, d, b), j)) => {
                    let pat = if is_start {
                        Match::Start(a, d, b)
                    } else {
                        Match::End(a, d, b)
                    };
                    self.read_finish(pat, j)
                },
            }
        } else {
            Err(i)
        }
    }
}

/// A rule document that does not fit the grammar, with the character
/// position of the first token that does not fit.
#[derive(Clone, PartialEq, Eq, Debug)]
pub struct ParseError {
    pub location: usize,
}

/// Parses a rule document into its rules, in the order written. Fails, with
/// no rules at all, at the first token that does not fit the grammar.
pub fn parse_rules(s: &str) -> (r: Result<Vec<Rule>, ParseError>)
    ensures
        match r {
            Ok(v) => parse_document(s@) == Ok::<_, int>(rules_view(v@)),
            Err(e) => parse_document(s@) == Err::<Seq<RuleView>, _>(e.location as int),
        },
{
    let src = Source::new(s);
    let mut acc: Vec<Rule> = Vec::new();
    let mut p = src.skip(0);
    assert(rules_view(acc@) =~= Seq::empty());
    while p < src.len()
        invariant
            src.wf(),
            src@ == s@,
            p <= src@.len(),
            parse_document(s@) == match rules_from(s@, p as int) {
                Ok(rs) => Ok(rules_view(acc@) + rs),
                Err(e) => Err(e),
            },
        decreases src@.len() - p,
    {
        match src.read_rule(p) {
            Err(e) => {
                return Err(ParseError { location: e });
            },
            Ok((rule, j)) => {
                let ghost before = acc@;
                let ghost rv = rule@;
                acc.push(rule);
                assert(rules_view(acc@) =~= rules_view(before).push(rv));
                proof {
                    if let Ok(rs) = rules_from(s@, j as int) {
                        lemma_push_concat(rules_view(before), rv, rs);
                    }
                }
                p = j;
            },
        }
    }
    assert(rules_view(acc@) + Seq::<RuleView>::empty() =~= rules_view(acc@));
    Ok(acc)
}

} // verus!
