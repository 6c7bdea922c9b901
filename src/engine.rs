//! The matching and selection engine: which rule of a table governs a cell,
//! given the cell's character and its eight neighbours.

use vstd::prelude::*;
use crate::grammar::{
    charset_has, dir_index, opposite_of, rules_view, CharSet, CharSetView, Dir, Dirs, Match,
    MatchView, Rule, RuleView,
};

verus! {

/// The neighbour in direction `d`, or `None` where there is no cell.
pub open spec fn neighbor(nb: Seq<Option<char>>, d: Dir) -> Option<char> {
    nb[dir_index(d)]
}

/// Whether direction `d` fits `cs`: the neighbour that way does, or, for an
/// incoming direction, the neighbour the stroke came from (the opposite way).
pub open spec fn dir_fits(cs: CharSetView, nb: Seq<Option<char>>, d: Dir, incoming: bool) -> bool {
    charset_has(cs, neighbor(nb, if incoming { opposite_of(d) } else { d }))
}

/// The first of `dirs[k..]` that fits, in listed order.
pub open spec fn first_fit_from(
    dirs: Seq<Dir>,
    cs: CharSetView,
    nb: Seq<Option<char>>,
    incoming: bool,
    k: int,
) -> Option<Dir>
    decreases dirs.len() - k,
{
    if !(0 <= k < dirs.len()) {
        None
    } else if dir_fits(cs, nb, dirs[k], incoming) {
        Some(dirs[k])
    } else {
        first_fit_from(dirs, cs, nb, incoming, k + 1)
    }
}

/// The first listed direction that fits.
pub open spec fn first_fit(dirs: Seq<Dir>, cs: CharSetView, nb: Seq<Option<char>>, incoming: bool) -> Option<Dir> {
    first_fit_from(dirs, cs, nb, incoming, 0)
}

/// Whether the pattern is satisfied at a cell holding `focal` with
/// neighbourhood `nb`.
pub open spec fn satisfied(m: MatchView, focal: char, nb: Seq<Option<char>>) -> bool {
    match m {
        MatchView::Start(c, ds, n) => charset_has(c, Some(focal)) && exists|k: int|
            0 <= k < ds.len() && dir_fits(n, nb, ds[k], false),
        MatchView::End(p, ds, c) => charset_has(c, Some(focal)) && exists|k: int|
            0 <= k < ds.len() && dir_fits(p, nb, ds[k], true),
        MatchView::Step(p, pd, c, cd, n) => charset_has(c, Some(focal)) && pair_exists(p, pd, cd, n, nb),
        MatchView::Loop(p, pd, c, cd, n) => charset_has(c, Some(focal)) && pair_exists(p, pd, cd, n, nb),
    }
}

/// Whether some incoming direction of `pd` and outgoing direction of `cd`
/// both fit.
pub open spec fn pair_exists(
    p: CharSetView,
    pd: Seq<Dir>,
    cd: Seq<Dir>,
    n: CharSetView,
    nb: Seq<Option<char>>,
) -> bool {
    exists|a: int, b: int|
        0 <= a < pd.len() && 0 <= b < cd.len() && #[trigger] dir_fits(p, nb, pd[a], true)
            && #[trigger] dir_fits(n, nb, cd[b], false)
}

/// The incoming and outgoing directions a satisfied pattern is matched
/// along: for `loop` and `step` the first fitting pair, with incoming
/// directions as the outer and outgoing ones as the inner enumeration.
pub open spec fn fit(m: MatchView, focal: char, nb: Seq<Option<char>>) -> Option<(Option<Dir>, Option<Dir>)> {
    match m {
        MatchView::Start(c, ds, n) => if charset_has(c, Some(focal)) {
            match first_fit(ds, n, nb, false) {
                Some(d) => Some((None, Some(d))),
                None => None,
            }
        } else {
            None
        },
        MatchView::End(p, ds, c) => if charset_has(c, Some(focal)) {
            match first_fit(ds, p, nb, true) {
                Some(d) => Some((Some(d), None)),
                None => None,
            }
        } else {
            None
        },
        MatchView::Step(p, pd, c, cd, n) => pass_fit(p, pd, c, cd, n, focal, nb),
        MatchView::Loop(p, pd, c, cd, n) => pass_fit(p, pd, c, cd, n, focal, nb),
    }
}

/// [`fit`] for the two pass-through shapes.
pub open spec fn pass_fit(
    p: CharSetView,
    pd: Seq<Dir>,
    c: CharSetView,
    cd: Seq<Dir>,
    n: CharSetView,
    focal: char,
    nb: Seq<Option<char>>,
) -> Option<(Option<Dir>, Option<Dir>)> {
    if charset_has(c, Some(focal)) {
        match (first_fit(pd, p, nb, true), first_fit(cd, n, nb, false)) {
            (Some(a), Some(b)) => Some((Some(a), Some(b))),
            _ => None,
        }
    } else {
        None
    }
}

/// The first rule of `table[i..]` that fits, with its directions.
pub open spec fn select_from(table: Seq<RuleView>, focal: char, nb: Seq<Option<char>>, i: int) -> Option<
    (int, Option<Dir>, Option<Dir>),
>
    decreases table.len() - i,
{
    if !(0 <= i < table.len()) {
        None
    } else {
        match fit(table[i].pat, focal, nb) {
            Some((a, b)) => Some((i, a, b)),
            None => select_from(table, focal, nb, i + 1),
        }
    }
}

/// The rule that governs a cell: the first in declaration order whose
/// pattern fits, with the directions it fits along.
pub open spec fn select_spec(table: Seq<RuleView>, focal: char, nb: Seq<Option<char>>) -> Option<
    (int, Option<Dir>, Option<Dir>),
> {
    select_from(table, focal, nb, 0)
}

/// Which shape of pattern fired.
#[derive(Copy, Clone, PartialEq, Eq, Structural, Hash, Debug)]
pub enum Kind {
    Loop,
    Step,
    Start,
    End,
}

/// The shape of a pattern.
pub open spec fn kind_of(m: MatchView) -> Kind {
    match m {
        MatchView::Loop(..) => Kind::Loop,
        MatchView::Step(..) => Kind::Step,
        MatchView::Start(..) => Kind::Start,
        MatchView::End(..) => Kind::End,
    }
}

/// The outcome of matching a cell: the governing rule's position in the
/// table, its shape, and the directions it was matched along (`incoming` is
/// the direction of travel on arrival, `outgoing` the one on leaving).
#[derive(Copy, Clone, PartialEq, Eq, Structural, Hash, Debug)]
pub struct Selection {
    pub rule: usize,
    pub kind: Kind,
    pub incoming: Option<Dir>,
    pub outgoing: Option<Dir>,
}

/// The first of `dirs` that fits `cs`, in listed order.
fn first_fitting(dirs: &Dirs, cs: &CharSet, nb: &[Option<char>; 8], incoming: bool) -> (r: Option<Dir>)
    ensures
        r == first_fit(dirs@, cs@, nb@, incoming),
{
    let mut k: usize = 0;
    while k < dirs.0.len()
        invariant
            k <= dirs@.len(),
            first_fit(dirs@, cs@, nb@, incoming) == first_fit_from(dirs@, cs@, nb@, incoming, k as int),
        decreases dirs@.len() - k,
    {
        let d = dirs.0[k];
        let look = if incoming {
            d.opposite()
        } else {
            d
        };
        if cs.admits(nb[look.index()]) {
            return Some(d);
        }
        k = k + 1;
    }
    None
}

impl Match {
    /// The directions this pattern fits along at a cell holding `focal` with
    /// neighbours `nb` (indexed as [`Dir::index`]), or `None` where it does
    /// not fit.
    pub fn fit(&self, focal: char, nb: &[Option<char>; 8]) -> (r: Option<(Option<Dir>, Option<Dir>)>)
        ensures
            r == fit(self@, focal, nb@),
    {
        match self {
            Match::Start(c, ds, n) => {
                if !c.admits(Some(focal)) {
                    return None;
                }
                match first_fitting(ds, n, nb, false) {
                    Some(d) => Some((None, Some(d))),
                    None => None,
                }
            },
            Match::End(p, ds, c) => {
                if !c.admits(Some(focal)) {
                    return None;
                }
                match first_fitting(ds, p, nb, true) {
                    Some(d) => Some((Some(d), None)),
                    None => None,
                }
            },
            Match::Step(p, pd, c, cd, n) | Match::Loop(p, pd, c, cd, n) => {
                if !c.admits(Some(focal)) {
                    return None;
                }
                match (first_fitting(pd, p, nb, true), first_fitting(cd, n, nb, false)) {
                    (Some(a), Some(b)) => Some((Some(a), Some(b))),
                    _ => None,
                }
            },
        }
    }

    /// The shape of this pattern.
    pub fn kind(&self) -> (r: Kind)
        ensures
            r == kind_of(self@),
    {
        match self {
            Match::Loop(..) => Kind::Loop,
            Match::Step(..) => Kind::Step,
            Match::Start(..) => Kind::Start,
            Match::End(..) => Kind::End,
        }
    }
}

/// The rule of `table` that governs a cell holding `focal` whose neighbours
/// are `nb` (indexed as [`Dir::index`]; `None` where there is no cell): the
/// first rule in declaration order whose pattern fits. `None` means the cell
/// draws nothing.
pub fn select(table: &Vec<Rule>, focal: char, nb: &[Option<char>; 8]) -> (r: Option<Selection>)
    ensures
        match r {
            None => select_spec(rules_view(table@), focal, nb@) is None,
            Some(s) => select_spec(rules_view(table@), focal, nb@) == Some(
                (s.rule as int, s.incoming, s.outgoing),
            ) && s.kind == kind_of(table@[s.rule as int].pat@),
        },
{
    let ghost tv = rules_view(table@);
    let mut i: usize = 0;
    while i < table.len()
        invariant
            i <= table@.len(),
            tv == rules_view(table@),
            select_spec(tv, focal, nb@) == select_from(tv, focal, nb@, i as int),
        decreases table@.len() - i,
    {
        let rule = &table[i];
        assert(tv[i as int] == rule@);
        match rule.pat.fit(focal, nb) {
            Some((a, b)) => {
                return Some(Selection { rule: i, kind: rule.pat.kind(), incoming: a, outgoing: b });
            },
            None => {},
        }
        i = i + 1;
    }
    None
}

/// The first fitting direction of `dirs[k..]` is fitting, and none listed
/// before it in that range fits; if there is none, no direction there fits.
pub proof fn lemma_first_fit_from(
    dirs: Seq<Dir>,
    cs: CharSetView,
    nb: Seq<Option<char>>,
    incoming: bool,
    k: int,
)
    requires
        0 <= k <= dirs.len(),
    ensures
        match first_fit_from(dirs, cs, nb, incoming, k) {
            Some(d) => exists|m: int|
                k <= m < dirs.len() && dirs[m] == d && dir_fits(cs, nb, dirs[m], incoming) && forall|
                    j: int,
                | k <= j < m ==> !dir_fits(cs, nb, #[trigger] dirs[j], incoming),
            None => forall|j: int| k <= j < dirs.len() ==> !dir_fits(cs, nb, #[trigger] dirs[j], incoming),
        },
    decreases dirs.len() - k,
{
    if k < dirs.len() && !dir_fits(cs, nb, dirs[k], incoming) {
        lemma_first_fit_from(dirs, cs, nb, incoming, k + 1);
        if let Some(d) = first_fit_from(dirs, cs, nb, incoming, k + 1) {
            let m = choose|m: int|
                k + 1 <= m < dirs.len() && dirs[m] == d && dir_fits(cs, nb, dirs[m], incoming)
                    && forall|j: int| k + 1 <= j < m ==> !dir_fits(cs, nb, #[trigger] dirs[j], incoming);
            assert(forall|j: int| k <= j < m ==> !dir_fits(cs, nb, #[trigger] dirs[j], incoming));
        }
    }
}

/// A direction fits exactly when the first fitting one exists.
proof fn lemma_first_fit_exists(dirs: Seq<Dir>, cs: CharSetView, nb: Seq<Option<char>>, incoming: bool)
    ensures
        (first_fit(dirs, cs, nb, incoming) is Some) <==> exists|k: int|
            0 <= k < dirs.len() && #[trigger] dir_fits(cs, nb, dirs[k], incoming),
{
    lemma_first_fit_from(dirs, cs, nb, incoming, 0);
}

/// A pattern fits along some directions exactly when it is satisfied.
pub proof fn lemma_fit_iff_satisfied(m: MatchView, focal: char, nb: Seq<Option<char>>)
    ensures
        (fit(m, focal, nb) is Some) <==> satisfied(m, focal, nb),
{
    match m {
        MatchView::Start(c, ds, n) => {
            lemma_first_fit_exists(ds, n, nb, false);
        },
        MatchView::End(p, ds, c) => {
            lemma_first_fit_exists(ds, p, nb, true);
        },
        MatchView::Step(p, pd, c, cd, n) => {
            lemma_pair_exists(p, pd, cd, n, nb);
        },
        MatchView::Loop(p, pd, c, cd, n) => {
            lemma_pair_exists(p, pd, cd, n, nb);
        },
    }
}

proof fn lemma_pair_exists(p: CharSetView, pd: Seq<Dir>, cd: Seq<Dir>, n: CharSetView, nb: Seq<Option<char>>)
    ensures
        pair_exists(p, pd, cd, n, nb) <==> (first_fit(pd, p, nb, true) is Some && first_fit(
            cd,
            n,
            nb,
            false,
        ) is Some),
{
    lemma_first_fit_exists(pd, p, nb, true);
    lemma_first_fit_exists(cd, n, nb, false);
    if first_fit(pd, p, nb, true) is Some && first_fit(cd, n, nb, false) is Some {
        let a = choose|k: int| 0 <= k < pd.len() && #[trigger] dir_fits(p, nb, pd[k], true);
        let b = choose|k: int| 0 <= k < cd.len() && #[trigger] dir_fits(n, nb, cd[k], false);
        assert(dir_fits(p, nb, pd[a], true) && dir_fits(n, nb, cd[b], false));
    }
}

/// Selection from `table[i..]` picks a satisfied rule with none satisfied
/// before it in that range, or finds none satisfied.
proof fn lemma_select_from(table: Seq<RuleView>, focal: char, nb: Seq<Option<char>>, i: int)
    requires
        0 <= i <= table.len(),
    ensures
        match select_from(table, focal, nb, i) {
            None => forall|j: int| i <= j < table.len() ==> !satisfied(#[trigger] table[j].pat, focal, nb),
            Some((k, a, b)) => i <= k < table.len() && satisfied(table[k].pat, focal, nb) && fit(
                table[k].pat,
                focal,
                nb,
            ) == Some((a, b)) && forall|j: int|
                i <= j < k ==> !satisfied(#[trigger] table[j].pat, focal, nb),
        },
    decreases table.len() - i,
{
    if i < table.len() {
        lemma_fit_iff_satisfied(table[i].pat, focal, nb);
        lemma_select_from(table, focal, nb, i + 1);
    }
}

/// The governing rule is satisfied, and no rule declared before it is; where
/// no rule is satisfied, no rule governs.
pub proof fn lemma_select_first_satisfied(table: Seq<RuleView>, focal: char, nb: Seq<Option<char>>)
    ensures
        match select_spec(table, focal, nb) {
            None => forall|j: int| 0 <= j < table.len() ==> !satisfied(#[trigger] table[j].pat, focal, nb),
            Some((k, a, b)) => 0 <= k < table.len() && satisfied(table[k].pat, focal, nb) && fit(
                table[k].pat,
                focal,
                nb,
            ) == Some((a, b)) && forall|j: int|
                0 <= j < k ==> !satisfied(#[trigger] table[j].pat, focal, nb),
        },
{
    lemma_select_from(table, focal, nb, 0);
}

/// Where no rule's pattern is satisfied at a cell, the cell draws nothing.
pub proof fn no_satisfied_rule_selects_nothing(table: Seq<RuleView>, focal: char, nb: Seq<Option<char>>)
    requires
        forall|j: int| 0 <= j < table.len() ==> !satisfied(#[trigger] table[j].pat, focal, nb),
    ensures
        select_spec(table, focal, nb) is None,
{
    lemma_select_first_satisfied(table, focal, nb);
}

/// Where two rules are both satisfied at a cell, the one declared later never
/// governs it: the governing rule is the earlier one or declared before it.
pub proof fn earlier_rule_takes_precedence(
    table: Seq<RuleView>,
    focal: char,
    nb: Seq<Option<char>>,
    first: int,
    second: int,
)
    requires
        0 <= first < second < table.len(),
        satisfied(table[first].pat, focal, nb),
        satisfied(table[second].pat, focal, nb),
    ensures
        match select_spec(table, focal, nb) {
            Some((k, _, _)) => k <= first && k != second,
            None => false,
        },
{
    lemma_select_first_satisfied(table, focal, nb);
}

/// `ANY` admits every character that is present, and never a missing cell.
pub proof fn any_requires_a_cell(c: char)
    ensures
        charset_has(CharSetView::Any, Some(c)),
        !charset_has(CharSetView::Any, None),
{
}

/// A `start` pattern whose successor set is `ANY` does not fit where every
/// listed direction points off the grid.
pub proof fn start_any_never_fits_off_grid(
    curr: CharSetView,
    dirs: Seq<Dir>,
    focal: char,
    nb: Seq<Option<char>>,
)
    requires
        forall|k: int| 0 <= k < dirs.len() ==> neighbor(nb, #[trigger] dirs[k]) is None,
    ensures
        !satisfied(MatchView::Start(curr, dirs, CharSetView::Any), focal, nb),
        fit(MatchView::Start(curr, dirs, CharSetView::Any), focal, nb) is None,
{
    lemma_fit_iff_satisfied(MatchView::Start(curr, dirs, CharSetView::Any), focal, nb);
}

/// Two string sets with the same characters, whatever their order or
/// repetition, admit the same positions.
pub proof fn string_set_ignores_order_and_repeats(a: Seq<char>, b: Seq<char>, c: Option<char>)
    requires
        a.to_set() == b.to_set(),
    ensures
        charset_has(CharSetView::Str(a), c) == charset_has(CharSetView::Str(b), c),
{
    if let Some(x) = c {
        assert(a.to_set().contains(x) == a.contains(x));
        assert(b.to_set().contains(x) == b.contains(x));
    }
}

/// A `step` or `loop` pattern that fits is matched along the first pair of
/// fitting directions, enumerating incoming directions as the outer and
/// outgoing ones as the inner loop, in listed order; it fits whenever some
/// pair does and the focal character is admitted.
pub proof fn pass_fit_takes_first_pair(
    p: CharSetView,
    pd: Seq<Dir>,
    c: CharSetView,
    cd: Seq<Dir>,
    n: CharSetView,
    focal: char,
    nb: Seq<Option<char>>,
)
    ensures
        match pass_fit(p, pd, c, cd, n, focal, nb) {
            Some((Some(x), Some(y))) => exists|a: int, b: int|
                0 <= a < pd.len() && 0 <= b < cd.len() && pd[a] == x && cd[b] == y && dir_fits(
                    p,
                    nb,
                    pd[a],
                    true,
                ) && dir_fits(n, nb, cd[b], false) && forall|a2: int, b2: int|
                    0 <= a2 < pd.len() && 0 <= b2 < cd.len() && (a2 < a || (a2 == a && b2 < b))
                        ==> !(dir_fits(p, nb, #[trigger] pd[a2], true) && dir_fits(
                        n,
                        nb,
                        #[trigger] cd[b2],
                        false,
                    )),
            Some(_) => false,
            None => !charset_has(c, Some(focal)) || !pair_exists(p, pd, cd, n, nb),
        },
{
    lemma_first_fit_from(pd, p, nb, true, 0);
    lemma_first_fit_from(cd, n, nb, false, 0);
    lemma_pair_exists(p, pd, cd, n, nb);
    if let Some((Some(x), Some(y))) = pass_fit(p, pd, c, cd, n, focal, nb) {
        let a = choose|m: int|
            0 <= m < pd.len() && pd[m] == x && dir_fits(p, nb, pd[m], true) && forall|j: int|
                0 <= j < m ==> !dir_fits(p, nb, #[trigger] pd[j], true);
        let b = choose|m: int|
            0 <= m < cd.len() && cd[m] == y && dir_fits(n, nb, cd[m], false) && forall|j: int|
                0 <= j < m ==> !dir_fits(n, nb, #[trigger] cd[j], false);
        assert(0 <= a < pd.len() && 0 <= b < cd.len() && pd[a] == x && cd[b] == y);
    }
}

} // verus!
