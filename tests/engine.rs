use mon_artist::engine::{select, Kind, Selection};
use mon_artist::grammar::{CharSet, Dir, Dirs, Match, Rendering, Rule};
use mon_artist::parser::parse_rules;
use mon_artist::template::{resolve_rendering, resolve_template, UnknownAnchor};

const NONE: [Option<char>; 8] = [None; 8];

fn with(pairs: &[(Dir, char)]) -> [Option<char>; 8] {
    let mut nb = NONE;
    for &(d, c) in pairs {
        nb[d.index()] = Some(c);
    }
    nb
}

fn two_rule_table() -> Vec<Rule> {
    parse_rules("start '+' ANY ANY draw \"M {C}\";\nstart '-' (E,W) \"-+\" draw \"M {RO} L {O}\";")
        .unwrap()
}

fn anchors(pairs: &[(&str, &str)]) -> Vec<(String, String)> {
    pairs.iter().map(|(a, b)| (a.to_string(), b.to_string())).collect()
}

#[test]
fn plus_starts_whatever_its_neighbours() {
    let table = two_rule_table();
    for nb in [
        with(&[(Dir::N, 'x')]),
        with(&[(Dir::SW, '+'), (Dir::E, ' ')]),
        with(&[(Dir::N, '|'), (Dir::NE, '/'), (Dir::E, '-'), (Dir::SE, '\\'), (Dir::S, '|'), (Dir::SW, '/'), (Dir::W, '-'), (Dir::NW, '\\')]),
    ] {
        let sel = select(&table, '+', &nb).unwrap();
        assert_eq!(sel.rule, 0);
        assert_eq!(sel.kind, Kind::Start);
        assert_eq!(sel.incoming, None);
        let rr = resolve_rendering(&table[0].render, sel.kind, &anchors(&[("C", "4,6")])).unwrap();
        assert_eq!(rr.draw, "M 4,6");
        assert_eq!(rr.kind, Kind::Start);
        assert_eq!(rr.attrs, None);
    }
    // the first present neighbour in compass order is chosen
    let sel = select(&table, '+', &with(&[(Dir::W, 'q'), (Dir::SE, 'r')])).unwrap();
    assert_eq!(sel.outgoing, Some(Dir::SE));
}

#[test]
fn dash_starts_towards_east_plus() {
    let table = two_rule_table();
    let sel = select(&table, '-', &with(&[(Dir::E, '+')])).unwrap();
    assert_eq!(
        sel,
        Selection { rule: 1, kind: Kind::Start, incoming: None, outgoing: Some(Dir::E) }
    );
    let rr = resolve_rendering(
        &table[1].render,
        sel.kind,
        &anchors(&[("O", "8,6"), ("RO", "7,6")]),
    )
    .unwrap();
    assert_eq!(rr.draw, "M 7,6 L 8,6");
    // west is tried only after east
    let sel = select(&table, '-', &with(&[(Dir::E, '-'), (Dir::W, '+')])).unwrap();
    assert_eq!(sel.outgoing, Some(Dir::E));
    let sel = select(&table, '-', &with(&[(Dir::E, 'x'), (Dir::W, '+')])).unwrap();
    assert_eq!(sel.outgoing, Some(Dir::W));
}

#[test]
fn uncovered_character_draws_nothing() {
    let table = two_rule_table();
    assert_eq!(select(&table, 'x', &NONE), None);
    assert_eq!(select(&table, 'x', &with(&[(Dir::E, '+'), (Dir::N, '-')])), None);
    assert_eq!(select(&table, 'x', &[Some('+'); 8]), None);
}

#[test]
fn step_finds_late_pair() {
    // prev 'a', next 'b'; incoming S means the predecessor lies to the north
    let table = parse_rules("step 'a' (N,S) '*' (E,W) 'b' draw \"L {O}\";").unwrap();
    let nb = with(&[(Dir::N, 'a'), (Dir::S, 'z'), (Dir::E, 'z'), (Dir::W, 'b')]);
    let sel = select(&table, '*', &nb).unwrap();
    assert_eq!(
        sel,
        Selection { rule: 0, kind: Kind::Step, incoming: Some(Dir::S), outgoing: Some(Dir::W) }
    );
    assert_eq!(table[0].pat.fit('*', &nb), Some((Some(Dir::S), Some(Dir::W))));
    // with the successor missing nothing fits
    let nb = with(&[(Dir::N, 'a'), (Dir::W, 'z')]);
    assert_eq!(select(&table, '*', &nb), None);
}

#[test]
fn loop_and_end_are_tagged() {
    let table = parse_rules(
        "loop '-' (E) '+' (S) '|' draw \"M {C}\";\nend '-' (E,W) '>' draw \"L {C}\";",
    )
    .unwrap();
    let sel = select(&table, '+', &with(&[(Dir::W, '-'), (Dir::S, '|')])).unwrap();
    assert_eq!(
        sel,
        Selection { rule: 0, kind: Kind::Loop, incoming: Some(Dir::E), outgoing: Some(Dir::S) }
    );
    // arriving eastward: the predecessor is to the west
    let sel = select(&table, '>', &with(&[(Dir::W, '-')])).unwrap();
    assert_eq!(
        sel,
        Selection { rule: 1, kind: Kind::End, incoming: Some(Dir::E), outgoing: None }
    );
    let sel = select(&table, '>', &with(&[(Dir::E, '-')])).unwrap();
    assert_eq!(sel.incoming, Some(Dir::W));
}

#[test]
fn no_rule_fits_means_no_selection() {
    let table = parse_rules(SAMPLE_ISH).unwrap();
    assert_eq!(select(&table, '|', &with(&[(Dir::E, '|')])), None);
    assert_eq!(select(&vec![], '+', &[Some('+'); 8]), None);
}

const SAMPLE_ISH: &str = "start '-' (E,W) \"-+\" draw \"A\";\nstart '|' (N,S) \"|+\" draw \"B\";";

#[test]
fn first_declared_rule_wins() {
    let table = parse_rules(
        "start '+' (E) ANY draw \"first\";\nstart '+' ANY ANY draw \"second\";\nstart '+' (E) '-' draw \"third\";",
    )
    .unwrap();
    let sel = select(&table, '+', &with(&[(Dir::E, '-')])).unwrap();
    assert_eq!(sel.rule, 0);
    let sel = select(&table, '+', &with(&[(Dir::W, '-')])).unwrap();
    assert_eq!(sel.rule, 1);
}

#[test]
fn any_never_matches_off_the_grid() {
    let table = parse_rules("start '+' (E,S) ANY draw \"M {C}\";").unwrap();
    assert_eq!(select(&table, '+', &NONE), None);
    // a neighbour in an unlisted direction does not help
    assert_eq!(select(&table, '+', &with(&[(Dir::W, '-')])), None);
    assert!(select(&table, '+', &with(&[(Dir::S, ' ')])).is_some());
    assert!(CharSet::Any.admits(Some('x')));
    assert!(!CharSet::Any.admits(None));
}

#[test]
fn string_sets_ignore_order_and_repeats() {
    let sets = ["ab", "ba", "aab"].map(|s| CharSet::String(s.to_string()));
    for c in ['a', 'b', 'c', ' '] {
        let expected = c == 'a' || c == 'b';
        for cs in &sets {
            assert_eq!(cs.admits(Some(c)), expected);
        }
    }
    for cs in &sets {
        assert!(!cs.admits(None));
    }
    assert!(CharSet::Char('q').admits(Some('q')));
    assert!(!CharSet::Char('q').admits(Some('r')));
}

#[test]
fn directions_index_and_reverse() {
    let all = Dirs::all();
    for (i, d) in all.0.iter().enumerate() {
        assert_eq!(d.index(), i);
        assert_eq!(d.opposite().opposite(), *d);
        assert_eq!(d.opposite().index(), (i + 4) % 8);
    }
    let m = Match::Start(CharSet::Any, Dirs(vec![Dir::N]), CharSet::Any);
    assert_eq!(m.kind(), Kind::Start);
}

#[test]
fn templates_resolve_every_placeholder() {
    let a = anchors(&[("C", "1,2"), ("O", "3,4"), ("C", "9,9")]);
    assert_eq!(resolve_template("M {C} L {O}", &a).unwrap(), "M 1,2 L 3,4");
    assert_eq!(resolve_template("", &a).unwrap(), "");
    assert_eq!(resolve_template("l 3,0 m -3,-3", &a).unwrap(), "l 3,0 m -3,-3");
    assert_eq!(resolve_template("{C}{O}x", &a).unwrap(), "1,23,4x");
    // an unclosed brace stays as written
    assert_eq!(resolve_template("M {C} {", &a).unwrap(), "M 1,2 {");
}

#[test]
fn unknown_placeholder_is_an_error() {
    let a = anchors(&[("C", "1,2")]);
    assert_eq!(
        resolve_template("M {C} L {RO}", &a),
        Err(UnknownAnchor { name: "RO".to_string() })
    );
    let r = Rendering { draw: "M {I}".to_string(), attrs: None };
    assert_eq!(
        resolve_rendering(&r, Kind::Loop, &a),
        Err(UnknownAnchor { name: "I".to_string() })
    );
}

#[test]
fn resolved_rendering_carries_attributes() {
    let r = Rendering {
        draw: "M {C}".to_string(),
        attrs: Some(vec![("stroke".to_string(), "red".to_string()), ("stroke".to_string(), "blue".to_string())]),
    };
    let rr = resolve_rendering(&r, Kind::End, &anchors(&[("C", "0,0")])).unwrap();
    assert_eq!(rr.draw, "M 0,0");
    assert_eq!(rr.kind, Kind::End);
    assert_eq!(rr.attrs, r.attrs);
}
