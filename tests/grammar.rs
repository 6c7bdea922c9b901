use mon_artist::grammar::{CharSet, Dir, Dirs, Match, Rendering, Rule};
use mon_artist::parser::parse_rules;

const SAMPLE_GRAMMAR: &str = r#"
loop  "|-/\" ANY '+' (N,S) "|" draw "M {C}";
loop  "|-/\" ANY '+' (E,W) "-" draw "M {C}";

# ‘-‘, ‘|‘, and ‘+‘ can start if next works. Draw line across.
start            '-' (E,W) "-+" draw "M {RO} L {O}";
start            '|' (N,S) "|+" draw "M {RO} L {O}";
start            '+' ANY   ANY  draw "M {C}";

# ‘.‘ and ‘’‘ make rounded corners. Draw curve through center.
step ANY (E,NE,N,NW,W) '.'  (E,SE,S,SW,W) "-|\/" draw "Q {C} {O}";
step ANY (E,SE,S,SW,W) "'" (E,NE,N,NW,W) "-|\/" draw "Q {C} {O}";

# ... for a loop, draw curve from incoming edge to outgoing one.
# loop ANY (E,NE,N,NW,W) '.'  (E,SE,S,SW,W) "-|\/" draw "M {I} Q {C} {O}";
# loop ANY (E,SE,S,SW,W) ''' (E,NE,N,NW,W) "-|\/" draw "M {I} Q {C} {O}";

# `-` and `|` connect w/ most things. Draw line to outgoing edge.
# step  "+-.'" (E, W)     '-'  (maybe (E, W)   "-+.'>") draw "L {O}";
# step  "+|.'" (N, S)     '|'  (maybe (N, S)   "|+.'" ) draw "L {O}";

# `+` is a corner; ensure compatible. Just draw line to center
# (the rest of corner is handled by next character, if present).
# step "|-/\>" ANY          '+'  (maybe (N,S) "|")     draw "L {C}";
# step "|-/\>" ANY          '+'  (maybe (E,W) "-")     draw "L {C}";
# step "|-/\>" ANY          '+'         (NE,SW) "/")   draw "L {C}";
# step "|-/\>" ANY          '+'         (NW,SE) "\")  draw "L {C}";

# `/`, `\` are diagonals. Draw line to outgoing corner.
# step ANY (NE, SW) '/'  (maybe (NE, SW) "/+.'")   draw "L {O}";
# step ANY (NW, SE) '\' (maybe (NW, SE) "\+.'")  draw "L {O}";

# Special case arrowhead code (1st does not touch; 2nd + 3rd do)
# end  '-' E '>'      draw "L {C} l 3,0 m -3,-3 l 3,3 l -3,3 m 0,-3";
# step '-' E '>' E '+' draw "L {E} m -2,0 l 4,0 m -4,-3 l 4,3 l -4,3 m 0,-3 m 4,0";
# step '+' W '>' W '-' draw "M {E} m -2,0 l 4,0 m -4,-3 l 4,3 l -4,3 m 0,-3 m 4,0 M {E} L {C}";
"#;

fn all_dirs() -> Dirs {
    Dirs(vec![Dir::N, Dir::NE, Dir::E, Dir::SE, Dir::S, Dir::SW, Dir::W, Dir::NW])
}

#[test]
fn sanity_check_1() {
    let r = parse_rules(r#"loop "|-/\" ANY "+" (N,S) "|" draw "M {C}"; "#);
    assert!(r.is_ok(), "result not ok; err: {:?}", r.unwrap_err());

    let r = parse_rules(SAMPLE_GRAMMAR);
    assert!(r.is_ok(), "result not ok; err: {:?}", r.unwrap_err());
}

#[test]
fn are_attributes_supported() {
    let r = parse_rules(
        r#"
start '^' (S) ':' draw "M {C} l 0,-5 m -3,5 l 3,-5 l 3, 5 m -3,0" attrs [("stroke-dasharray", "5,2")];
"#,
    );
    assert!(r.is_ok(), "result not ok; err: {:?}", r.unwrap_err());
}

#[test]
fn sample_grammar_parses_to_seven_rules_in_order() {
    let rules = parse_rules(SAMPLE_GRAMMAR).unwrap();
    assert_eq!(rules.len(), 7);
    assert_eq!(
        rules[0],
        Rule {
            pat: Match::Loop(
                CharSet::String("|-/\\".to_string()),
                all_dirs(),
                CharSet::Char('+'),
                Dirs(vec![Dir::N, Dir::S]),
                CharSet::String("|".to_string()),
            ),
            render: Rendering { draw: "M {C}".to_string(), attrs: None },
        }
    );
    assert_eq!(
        rules[2],
        Rule {
            pat: Match::Start(
                CharSet::Char('-'),
                Dirs(vec![Dir::E, Dir::W]),
                CharSet::String("-+".to_string()),
            ),
            render: Rendering { draw: "M {RO} L {O}".to_string(), attrs: None },
        }
    );
    assert_eq!(
        rules[4].pat,
        Match::Start(CharSet::Char('+'), all_dirs(), CharSet::Any)
    );
    assert_eq!(
        rules[6].pat,
        Match::Step(
            CharSet::Any,
            Dirs(vec![Dir::E, Dir::SE, Dir::S, Dir::SW, Dir::W]),
            CharSet::String("'".to_string()),
            Dirs(vec![Dir::E, Dir::NE, Dir::N, Dir::NW, Dir::W]),
            CharSet::String("-|\\/".to_string()),
        )
    );
}

#[test]
fn attributes_are_kept_in_order_with_duplicates() {
    let rules = parse_rules(
        r#"end ANY (E) '>' draw "L {C}" attrs [("a", "1"), ("b", "2"), ("a", "3")];"#,
    )
    .unwrap();
    assert_eq!(rules.len(), 1);
    assert_eq!(
        rules[0].pat,
        Match::End(CharSet::Any, Dirs(vec![Dir::E]), CharSet::Char('>'))
    );
    assert_eq!(
        rules[0].render.attrs,
        Some(vec![
            ("a".to_string(), "1".to_string()),
            ("b".to_string(), "2".to_string()),
            ("a".to_string(), "3".to_string()),
        ])
    );
}

#[test]
fn empty_and_comment_only_documents_have_no_rules() {
    assert_eq!(parse_rules("").unwrap(), vec![]);
    assert_eq!(parse_rules("  \n\t# nothing here\n# nor here").unwrap(), vec![]);
}

#[test]
fn reparsing_with_other_layout_gives_equal_rules() {
    let a = parse_rules(
        "start '-' (E,W) \"-+\" draw \"M {RO} L {O}\";\nstep ANY (N,S) '|' (N,S) \"|\" draw \"L {O}\";",
    )
    .unwrap();
    let b = parse_rules(
        "# first\n  start\n'-'   ( E , W )\"-+\"draw\"M {RO} L {O}\" ; # trailing\n\n\nstep\tANY(N,S)'|'(N,\nS)\"|\" draw \"L {O}\"\n;\n",
    )
    .unwrap();
    assert_eq!(a.len(), 2);
    assert_eq!(a, b);
}

#[test]
fn missing_semicolon_is_rejected_with_location() {
    let doc = "start '+' ANY ANY draw \"M {C}\";\nstart '-' (E,W) \"-+\" draw \"M {C}\"\nstart '|' (N,S) \"|+\" draw \"M {C}\";";
    let e = parse_rules(doc).unwrap_err();
    // the second rule ends after its template; the next token is `start`
    let second_end = doc.find("\nstart '|'").unwrap() + 1;
    assert_eq!(e.location, second_end);
}

#[test]
fn missing_semicolon_at_end_of_document() {
    let doc = "start '+' ANY ANY draw \"M {C}\"";
    let e = parse_rules(doc).unwrap_err();
    assert_eq!(e.location, doc.chars().count());
}

#[test]
fn bad_tokens_are_located() {
    // unknown keyword
    assert_eq!(parse_rules("  jump '+' ANY ANY draw \"M\";").unwrap_err().location, 2);
    // unknown direction name
    assert_eq!(parse_rules("start '+' (N,Q) ANY draw \"M\";").unwrap_err().location, 10);
    // empty string character set
    assert_eq!(parse_rules("start \"\" ANY ANY draw \"M\";").unwrap_err().location, 6);
    // unterminated template
    assert_eq!(parse_rules("start '+' ANY ANY draw \"M;").unwrap_err().location, 23);
    // missing draw keyword
    assert_eq!(parse_rules("start '+' ANY ANY \"M\";").unwrap_err().location, 18);
    // bad attribute list
    assert_eq!(
        parse_rules("start '+' ANY ANY draw \"M\" attrs [(\"a\" \"b\")];").unwrap_err().location,
        34
    );
}

#[test]
fn quoted_text_has_no_escapes() {
    let rules = parse_rules(r#"start "\'" ANY ANY draw "a\b";"#).unwrap();
    assert_eq!(
        rules[0].pat,
        Match::Start(CharSet::String("\\'".to_string()), all_dirs(), CharSet::Any)
    );
    assert_eq!(rules[0].render.draw, "a\\b");
}

#[test]
fn non_ascii_text_is_positioned_by_character() {
    let doc = "# ‘é’\nstart 'é' ANY ANY draw \"M {C}\"";
    let e = parse_rules(doc).unwrap_err();
    assert_eq!(e.location, doc.chars().count());
    let rules = parse_rules("start 'é' ANY ANY draw \"é\";").unwrap();
    assert_eq!(rules[0].pat, Match::Start(CharSet::Char('é'), all_dirs(), CharSet::Any));
}

#[test]
fn leading_layout_changes_nothing() {
    let doc = "start '+' ANY ANY draw \"M {C}\";";
    let padded = format!("\n  # a heading\n\t# another\n\n{}", doc);
    assert_eq!(parse_rules(doc).unwrap(), parse_rules(&padded).unwrap());
    let bad = "start '+' ANY ANY draw \"M {C}\"";
    let pad = "# x\n ";
    let e1 = parse_rules(bad).unwrap_err();
    let e2 = parse_rules(&format!("{}{}", pad, bad)).unwrap_err();
    assert_eq!(e2.location, e1.location + pad.chars().count());
}
