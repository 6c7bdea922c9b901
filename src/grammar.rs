//! The pattern model: compass directions, character sets, match shapes,
//! renderings and rules, each with its mathematical view.

use vstd::prelude::*;
use vstd::std_specs::iter::IteratorSpec;

verus! {

/// One of the eight compass points.
#[derive(Copy, Clone, PartialEq, Eq, Structural, Hash, Debug)]
pub enum Dir {
    N,
    NE,
    E,
    SE,
    S,
    SW,
    W,
    NW,
}

/// The slot of a direction in a neighbourhood array: the compass points in
/// clockwise order starting at north.
pub open spec fn dir_index(d: Dir) -> int {
    match d {
        Dir::N => 0,
        Dir::NE => 1,
        Dir::E => 2,
        Dir::SE => 3,
        Dir::S => 4,
        Dir::SW => 5,
        Dir::W => 6,
        Dir::NW => 7,
    }
}

/// The direction pointing the other way.
pub open spec fn opposite_of(d: Dir) -> Dir {
    match d {
        Dir::N => Dir::S,
        Dir::NE => Dir::SW,
        Dir::E => Dir::W,
        Dir::SE => Dir::NW,
        Dir::S => Dir::N,
        Dir::SW => Dir::NE,
        Dir::W => Dir::E,
        Dir::NW => Dir::SE,
    }
}

/// The eight compass points in neighbourhood-slot order.
pub open spec fn all_dirs_seq() -> Seq<Dir> {
    seq![Dir::N, Dir::NE, Dir::E, Dir::SE, Dir::S, Dir::SW, Dir::W, Dir::NW]
}

impl Dir {
    /// The slot of this direction in a neighbourhood array.
    pub fn index(self) -> (r: usize)
        ensures
            r as int == dir_index(self),
            r < 8,
    {
        match self {
            Dir::N => 0,
            Dir::NE => 1,
            Dir::E => 2,
            Dir::SE => 3,
            Dir::S => 4,
            Dir::SW => 5,
            Dir::W => 6,
            Dir::NW => 7,
        }
    }

    /// The direction pointing the other way.
    pub fn opposite(self) -> (r: Dir)
        ensures
            r == opposite_of(self),
    {
        match self {
            Dir::N => Dir::S,
            Dir::NE => Dir::SW,
            Dir::E => Dir::W,
            Dir::SE => Dir::NW,
            Dir::S => Dir::N,
            Dir::SW => Dir::NE,
            Dir::W => Dir::E,
            Dir::NW => Dir::SE,
        }
    }
}

/// A list of directions: a membership set for matching, and an enumeration
/// order for choosing which direction a match uses.
#[derive(Clone, PartialEq, Eq, Hash, Debug)]
pub struct Dirs(pub Vec<Dir>);

impl View for Dirs {
    type V = Seq<Dir>;

    open spec fn view(&self) -> Seq<Dir> {
        self.0@
    }
}

impl Dirs {
    /// All eight compass points, in neighbourhood-slot order.
    pub fn all() -> (r: Dirs)
        ensures
            r@ == all_dirs_seq(),
    {
        let r = Dirs(vec![Dir::N, Dir::NE, Dir::E, Dir::SE, Dir::S, Dir::SW, Dir::W, Dir::NW]);
        assert(r@ =~= all_dirs_seq());
        r
    }
}

/// A predicate over the character found at one grid position.
#[derive(Clone, PartialEq, Eq, Hash, Debug)]
pub enum CharSet {
    /// Exactly this character.
    Char(char),
    /// Any character occurring in the string; order and repetition do not matter.
    String(String),
    /// Any character, as long as the position holds one.
    Any,
}

/// The view of a [`CharSet`].
pub enum CharSetView {
    Char(char),
    Str(Seq<char>),
    Any,
}

impl View for CharSet {
    type V = CharSetView;

    open spec fn view(&self) -> CharSetView {
        match self {
            CharSet::Char(c) => CharSetView::Char(*c),
            CharSet::String(s) => CharSetView::Str(s@),
            CharSet::Any => CharSetView::Any,
        }
    }
}

/// Whether a position holding `c` (or nothing, for `None`) satisfies the set.
pub open spec fn charset_has(cs: CharSetView, c: Option<char>) -> bool {
    match c {
        None => false,
        Some(x) => match cs {
            CharSetView::Char(y) => x == y,
            CharSetView::Str(set) => set.contains(x),
            CharSetView::Any => true,
        },
    }
}

impl CharSet {
    /// Whether a position holding `c` (or nothing, for `None`) satisfies the set.
    pub fn admits(&self, c: Option<char>) -> (r: bool)
        ensures
            r == charset_has(self@, c),
    {
        match c {
            None => false,
            Some(x) => match self {
                CharSet::Char(y) => x == *y,
                CharSet::String(s) => str_contains(s.as_str(), x),
                CharSet::Any => true,
            },
        }
    }
}

/// Whether `x` occurs among the characters of `s`.
fn str_contains(s: &str, x: char) -> (r: bool)
    ensures
        r == s@.contains(x),
{
    let v = chars_of(s);
    let mut k: usize = 0;
    while k < v.len()
        invariant
            v@ == s@,
            k <= v@.len(),
            forall|j: int| 0 <= j < k ==> v@[j] != x,
        decreases v@.len() - k,
    {
        if v[k] == x {
            return true;
        }
        k = k + 1;
    }
    false
}

/// The characters of `s`, in order.
pub(crate) fn chars_of(s: &str) -> (r: Vec<char>)
    ensures
        r@ == s@,
{
    broadcast use vstd::string::group_string_axioms;

    let mut it = s.chars();
    let mut out: Vec<char> = Vec::new();
    loop
        invariant
            it.remaining() == s@.skip(out@.len() as int),
            out@ == s@.take(out@.len() as int),
            out@.len() <= s@.len(),
        decreases s@.len() - out@.len(),
    {
        match it.next() {
            None => {
                assert(out@ =~= s@);
                return out;
            },
            Some(c) => {
                out.push(c);
                assert(out@ =~= s@.take(out@.len() as int));
            },
        }
    }
}

/// The neighbourhood shape a rule looks for around the focal cell.
#[derive(Clone, PartialEq, Eq, Hash, Debug)]
pub enum Match {
    /// `loop <prev> <dirs> <curr> <dirs> <next>`: passes a closed stroke through.
    Loop(CharSet, Dirs, CharSet, Dirs, CharSet),
    /// `step <prev> <dirs> <curr> <dirs> <next>`: passes an open stroke through.
    Step(CharSet, Dirs, CharSet, Dirs, CharSet),
    /// `start <curr> <dirs> <next>`: begins a stroke.
    Start(CharSet, Dirs, CharSet),
    /// `end <prev> <dirs> <curr>`: ends a stroke. Each listed direction is one
    /// acceptable direction of arrival; the pattern fits if any one does.
    End(CharSet, Dirs, CharSet),
}

/// The view of a [`Match`].
pub enum MatchView {
    Loop(CharSetView, Seq<Dir>, CharSetView, Seq<Dir>, CharSetView),
    Step(CharSetView, Seq<Dir>, CharSetView, Seq<Dir>, CharSetView),
    Start(CharSetView, Seq<Dir>, CharSetView),
    End(CharSetView, Seq<Dir>, CharSetView),
}

impl View for Match {
    type V = MatchView;

    open spec fn view(&self) -> MatchView {
        match self {
            Match::Loop(p, pd, c, cd, n) => MatchView::Loop(p@, pd@, c@, cd@, n@),
            Match::Step(p, pd, c, cd, n) => MatchView::Step(p@, pd@, c@, cd@, n@),
            Match::Start(c, d, n) => MatchView::Start(c@, d@, n@),
            Match::End(p, d, c) => MatchView::End(p@, d@, c@),
        }
    }
}

/// A draw template with placeholders such as `{C}` or `{O}`, and the
/// attributes to attach to the emitted primitive, in the order written.
/// Attributes are kept as a list: a key written twice is emitted twice.
#[derive(Clone, PartialEq, Eq, Hash, Debug)]
pub struct Rendering {
    pub draw: String,
    pub attrs: Option<Vec<(String, String)>>,
}

/// The view of an attribute list.
pub open spec fn attrs_view(v: Seq<(String, String)>) -> Seq<(Seq<char>, Seq<char>)> {
    v.map_values(|p: (String, String)| (p.0@, p.1@))
}

/// The view of a [`Rendering`].
pub struct RenderingView {
    pub draw: Seq<char>,
    pub attrs: Option<Seq<(Seq<char>, Seq<char>)>>,
}

impl View for Rendering {
    type V = RenderingView;

    open spec fn view(&self) -> RenderingView {
        RenderingView {
            draw: self.draw@,
            attrs: match self.attrs {
                None => None,
                Some(v) => Some(attrs_view(v@)),
            },
        }
    }
}

/// A pattern and what to draw where it fits.
#[derive(Clone, PartialEq, Eq, Hash, Debug)]
pub struct Rule {
    pub pat: Match,
    pub render: Rendering,
}

/// The view of a [`Rule`].
pub struct RuleView {
    pub pat: MatchView,
    pub render: RenderingView,
}

impl View for Rule {
    type V = RuleView;

    open spec fn view(&self) -> RuleView {
        RuleView { pat: self.pat@, render: self.render@ }
    }
}

/// The view of a rule table, in declaration order.
pub open spec fn rules_view(v: Seq<Rule>) -> Seq<RuleView> {
    v.map_values(|r: Rule| r@)
}

/// A value that code outside this crate cannot construct.
#[derive(Copy, Clone, PartialEq, Eq, Hash, Debug)]
pub struct Unforgeable(UnusedMarker);

#[derive(Copy, Clone, PartialEq, Eq, Hash, Debug)]
struct UnusedMarker;

} // verus!
