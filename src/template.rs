//! Resolving a matched rule's draw template: each `{NAME}` placeholder is
//! replaced by the coordinate the geometry side computed for that anchor.

use vstd::prelude::*;
use vstd::string::StrSliceExecFns;
use crate::engine::Kind;
use crate::grammar::{attrs_view, chars_of, Rendering};

verus! {

/// The value of the first anchor named `name` in `anchors[k..]`.
pub open spec fn anchor_from(anchors: Seq<(Seq<char>, Seq<char>)>, name: Seq<char>, k: int) -> Option<Seq<char>>
    decreases anchors.len() - k,
{
    if !(0 <= k < anchors.len()) {
        None
    } else if anchors[k].0 == name {
        Some(anchors[k].1)
    } else {
        anchor_from(anchors, name, k + 1)
    }
}

/// The value of the first anchor named `name`.
pub open spec fn anchor_value(anchors: Seq<(Seq<char>, Seq<char>)>, name: Seq<char>) -> Option<Seq<char>> {
    anchor_from(anchors, name, 0)
}

/// The first `}` at or after `i`, or the end of the template.
pub open spec fn brace_close(t: Seq<char>, i: int) -> int
    decreases t.len() - i,
{
    if 0 <= i < t.len() && t[i] != '}' {
        brace_close(t, i + 1)
    } else {
        i
    }
}

/// The template from position `i` on with every closed `{NAME}` replaced by
/// the anchor's value; on failure, the first name with no anchor. A `{` with
/// no `}` after it is kept as it is.
pub open spec fn resolve_from(t: Seq<char>, anchors: Seq<(Seq<char>, Seq<char>)>, i: int) -> Result<
    Seq<char>,
    Seq<char>,
>
    decreases t.len() - i,
{
    if !(0 <= i < t.len()) {
        Ok(Seq::empty())
    } else if t[i] == '{' && i < brace_close(t, i + 1) < t.len() {
        let j = brace_close(t, i + 1);
        match anchor_value(anchors, t.subrange(i + 1, j)) {
            None => Err(t.subrange(i + 1, j)),
            Some(v) => match resolve_from(t, anchors, j + 1) {
                Ok(rest) => Ok(v + rest),
                Err(e) => Err(e),
            },
        }
    } else {
        match resolve_from(t, anchors, i + 1) {
            Ok(rest) => Ok(seq![t[i]] + rest),
            Err(e) => Err(e),
        }
    }
}

/// The whole template resolved.
pub open spec fn resolve(t: Seq<char>, anchors: Seq<(Seq<char>, Seq<char>)>) -> Result<Seq<char>, Seq<char>> {
    resolve_from(t, anchors, 0)
}

/// Relies on `String::push`: appends one character.
#[verifier::external_body]
fn push_char(s: &mut String, c: char)
    ensures
        final(s)@ == old(s)@.push(c),
{
    s.push(c)
}

/// Relies on `String::push_str`: appends a string.
#[verifier::external_body]
fn push_text(s: &mut String, t: &str)
    ensures
        final(s)@ == old(s)@ + t@,
{
    s.push_str(t)
}

/// The value of the first anchor named `name`.
fn lookup_anchor<'a>(anchors: &'a Vec<(String, String)>, name: &String) -> (r: Option<&'a String>)
    ensures
        match r {
            Some(v) => anchor_value(attrs_view(anchors@), name@) == Some(v@),
            None => anchor_value(attrs_view(anchors@), name@) is None,
        },
{
    let ghost av = attrs_view(anchors@);
    let mut k: usize = 0;
    while k < anchors.len()
        invariant
            k <= anchors@.len(),
            av == attrs_view(anchors@),
            anchor_value(av, name@) == anchor_from(av, name@, k as int),
        decreases anchors@.len() - k,
    {
        assert(av[k as int] == (anchors@[k as int].0@, anchors@[k as int].1@));
        if anchors[k].0 == *name {
            return Some(&anchors[k].1);
        }
        k = k + 1;
    }
    None
}

/// A name that a draw template uses and no anchor supplies.
#[derive(Clone, PartialEq, Eq, Debug)]
pub struct UnknownAnchor {
    pub name: String,
}

/// Resolves `template` against `anchors`, the (name, coordinate) pairs
/// supplied for the matched cell: each `{NAME}` is replaced by the first
/// coordinate named `NAME`, and every other character is kept. A name with
/// no anchor is an error.
pub fn resolve_template(template: &str, anchors: &Vec<(String, String)>) -> (r: Result<String, UnknownAnchor>)
    ensures
        match r {
            Ok(s) => resolve(template@, attrs_view(anchors@)) == Ok::<_, Seq<char>>(s@),
            Err(e) => resolve(template@, attrs_view(anchors@)) == Err::<Seq<char>, _>(e.name@),
        },
{
    let t = chars_of(template);
    let ghost av = attrs_view(anchors@);
    let mut out = String::new();
    let mut p: usize = 0;
    assert(out@ + Seq::<char>::empty() =~= out@);
    while p < t.len()
        invariant
            t@ == template@,
            p <= t@.len(),
            av == attrs_view(anchors@),
            resolve(t@, av) == match resolve_from(t@, av, p as int) {
                Ok(rest) => Ok(out@ + rest),
                Err(e) => Err(e),
            },
        decreases t@.len() - p,
    {
        let ghost before = out@;
        if t[p] == '{' {
            let mut j = p + 1;
            while j < t.len() && t[j] != '}'
                invariant
                    p < j <= t@.len(),
                    brace_close(t@, j as int) == brace_close(t@, p + 1),
                decreases t@.len() - j,
            {
                j = j + 1;
            }
            if j < t.len() {
                let name = template.substring_char(p + 1, j).to_owned();
                match lookup_anchor(anchors, &name) {
                    None => {
                        return Err(UnknownAnchor { name });
                    },
                    Some(v) => {
                        push_text(&mut out, v.as_str());
                        proof {
                            if let Ok(rest) = resolve_from(t@, av, j + 1) {
                                assert(before + (v@ + rest) =~= out@ + rest);
                            }
                        }
                        p = j + 1;
                    },
                }
                continue;
            }
        }
        push_char(&mut out, t[p]);
        proof {
            if let Ok(rest) = resolve_from(t@, av, p + 1) {
                assert(before + (seq![t@[p as int]] + rest) =~= out@ + rest);
            }
        }
        p = p + 1;
    }
    Ok(out)
}

/// A copy of an attribute list.
fn copy_attrs(v: &Vec<(String, String)>) -> (r: Vec<(String, String)>)
    ensures
        attrs_view(r@) == attrs_view(v@),
{
    let mut out: Vec<(String, String)> = Vec::new();
    let mut k: usize = 0;
    while k < v.len()
        invariant
            k <= v@.len(),
            attrs_view(out@) == attrs_view(v@).take(k as int),
            out@.len() == k,
        decreases v@.len() - k,
    {
        let a = v[k].0.clone();
        let b = v[k].1.clone();
        let ghost before = out@;
        assert(a@ == v@[k as int].0@ && b@ == v@[k as int].1@);
        out.push((a, b));
        assert(out@ == before.push((a, b)));
        assert forall|j: int| 0 <= j <= k implies attrs_view(out@)[j] == attrs_view(v@).take(
            k + 1,
        )[j] by {
            if j < k {
                assert(out@[j] == before[j]);
                assert(attrs_view(before)[j] == attrs_view(v@).take(k as int)[j]);
            }
        }
        assert(attrs_view(out@) =~= attrs_view(v@).take(k + 1));
        k = k + 1;
    }
    assert(attrs_view(v@).take(v@.len() as int) =~= attrs_view(v@));
    out
}

/// A rendering with its template resolved, its attributes as written, and
/// the shape of pattern that fired.
#[derive(Clone, PartialEq, Eq, Debug)]
pub struct ResolvedRendering {
    pub draw: String,
    pub attrs: Option<Vec<(String, String)>>,
    pub kind: Kind,
}

/// Resolves the rendering of a matched rule against the anchors supplied
/// for the cell, tagging it with the shape that fired. Attributes are
/// carried through unchanged, duplicates included.
pub fn resolve_rendering(render: &Rendering, kind: Kind, anchors: &Vec<(String, String)>) -> (r: Result<
    ResolvedRendering,
    UnknownAnchor,
>)
    ensures
        match r {
            Ok(rr) => resolve(render.draw@, attrs_view(anchors@)) == Ok::<_, Seq<char>>(rr.draw@)
                && rr.kind == kind && match (rr.attrs, render.attrs) {
                (None, None) => true,
                (Some(a), Some(b)) => attrs_view(a@) == attrs_view(b@),
                _ => false,
            },
            Err(e) => resolve(render.draw@, attrs_view(anchors@)) == Err::<Seq<char>, _>(e.name@),
        },
{
    let draw = resolve_template(render.draw.as_str(), anchors)?;
    let attrs = match &render.attrs {
        None => None,
        Some(v) => Some(copy_attrs(v)),
    };
    Ok(ResolvedRendering { draw, attrs, kind })
}

} // verus!
