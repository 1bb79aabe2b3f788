use playset::format::{DIFFERENCE, INTERSECTION, SEPARATOR, SET_END, SET_START, UNION};
use playset::{
    Library, LoadError, ParseError, Playset, RefError, SetOp, Song, SongSet, SongTree,
    SongTreeNode, StoreError,
};

fn song(name: &str) -> Song {
    Song {
        name: name.to_string(),
        genre: format!("{} genre", name),
        artist: format!("{} artist", name),
        album: format!("{} album", name),
        duration: name.len() as u64 * 60,
    }
}

fn terminal(names: &[&str]) -> SongTree {
    SongTree::Leaf(SongSet::Terminal(names.iter().map(|n| song(n)).collect()))
}

fn reference(name: &str) -> SongTree {
    SongTree::Leaf(SongSet::NonTerminal(name.to_string()))
}

fn operation(op: SetOp, lhs: SongTree, rhs: SongTree) -> SongTree {
    SongTree::Operation(op, SongTreeNode { lhs: Box::new(lhs), rhs: Box::new(rhs) })
}

fn names(songs: &[Song]) -> Vec<String> {
    let mut v: Vec<String> = songs.iter().map(|s| s.name.clone()).collect();
    v.sort();
    v
}

fn universe() -> Vec<Song> {
    vec![song("a"), song("b"), song("c")]
}

/// U = {a, b, c}, X = {a, b}, Y = X ∪ {c}, Z = U − X.
fn scenario_library() -> Library {
    let mut lib = Library::new(universe());
    assert!(lib.push_set(Playset { name: "X".to_string(), songs: terminal(&["a", "b"]) }).is_ok());
    let y = operation(SetOp::Union, reference("X"), terminal(&["c"]));
    assert!(lib.push_set(Playset { name: "Y".to_string(), songs: y }).is_ok());
    let z = operation(SetOp::Difference, reference("U"), reference("X"));
    assert!(lib.push_set(Playset { name: "Z".to_string(), songs: z }).is_ok());
    lib
}

fn flatten_named(lib: &Library, name: &str) -> Result<Vec<Song>, RefError> {
    reference(name).flatten(lib)
}

#[test]
fn scenario_literal_subset() {
    let lib = scenario_library();
    let x = flatten_named(&lib, "X").unwrap();
    assert_eq!(names(&x), vec!["a", "b"]);
}

#[test]
fn scenario_union_with_reference() {
    let lib = scenario_library();
    let y = flatten_named(&lib, "Y").unwrap();
    assert_eq!(names(&y), vec!["a", "b", "c"]);
}

#[test]
fn scenario_difference_of_universe() {
    let lib = scenario_library();
    let z = flatten_named(&lib, "Z").unwrap();
    assert_eq!(names(&z), vec!["c"]);
    assert_eq!(z[0].artist, "c artist");
}

#[test]
fn scenario_round_trip_of_difference() {
    let lib = scenario_library();
    let z = lib.get(&"Z".to_string()).unwrap();
    let text = z.songs.to_pset_string();
    let parsed = SongTree::from_pset_string(&text, &universe()).unwrap();
    assert_eq!(names(&parsed.flatten(&lib).unwrap()), vec!["c"]);
}

#[test]
fn scenario_self_reference_is_cyclic() {
    let mut lib = scenario_library();
    assert!(lib.push_set(Playset { name: "X2".to_string(), songs: reference("X2") }).is_ok());
    match flatten_named(&lib, "X2") {
        Err(RefError::CyclicReference(n)) => assert_eq!(n, "X2"),
        other => panic!("expected a cyclic reference, got {:?}", other.map(|v| names(&v))),
    }
    let leaf = SongSet::NonTerminal("X2".to_string());
    assert!(matches!(leaf.flatten(&lib), Err(RefError::CyclicReference(n)) if n == "X2"));
}

#[test]
fn longer_cycle_is_reported() {
    let mut lib = Library::new(universe());
    let p = operation(SetOp::Union, terminal(&["a"]), reference("Q"));
    assert!(lib.push_set(Playset { name: "P".to_string(), songs: p }).is_ok());
    assert!(lib.push_set(Playset { name: "Q".to_string(), songs: reference("P") }).is_ok());
    assert!(matches!(flatten_named(&lib, "P"), Err(RefError::CyclicReference(n)) if n == "P"));
}

#[test]
fn unknown_reference_fails() {
    let lib = scenario_library();
    match flatten_named(&lib, "missing") {
        Err(RefError::UnknownSetReference(n)) => assert_eq!(n, "missing"),
        _ => panic!("expected an unknown reference"),
    }
    let leaf = SongSet::NonTerminal("missing".to_string());
    assert!(matches!(leaf.flatten(&lib), Err(RefError::UnknownSetReference(n)) if n == "missing"));
}

#[test]
fn left_error_comes_first() {
    let lib = scenario_library();
    let t = operation(SetOp::Union, reference("first"), reference("second"));
    assert!(matches!(t.flatten(&lib), Err(RefError::UnknownSetReference(n)) if n == "first"));
}

#[test]
fn duplicate_names_are_rejected() {
    let mut lib = scenario_library();
    let before = lib.sets().len();
    assert!(matches!(lib.push_empty_set("U".to_string()), Err(StoreError::DuplicateName(n)) if n == "U"));
    assert!(matches!(lib.push_empty_set("X".to_string()), Err(StoreError::DuplicateName(n)) if n == "X"));
    assert_eq!(lib.sets().len(), before);
    assert_eq!(names(&flatten_named(&lib, "X").unwrap()), vec!["a", "b"]);
    assert!(lib.push_empty_set("W".to_string()).is_ok());
    assert!(matches!(lib.push_empty_set("W".to_string()), Err(StoreError::DuplicateName(n)) if n == "W"));
    assert_eq!(lib.sets().len(), before + 1);
    assert!(flatten_named(&lib, "W").unwrap().is_empty());
}

#[test]
fn empty_terminal_is_empty() {
    let p = Playset::empty_terminal("E".to_string());
    assert_eq!(p.name, "E");
    assert_eq!(p.songs.to_pset_string(), format!("{}{}", SET_START, SET_END));
}

#[test]
fn get_and_contains() {
    let lib = scenario_library();
    assert!(lib.contains(&"U".to_string()));
    assert!(lib.contains(&"Y".to_string()));
    assert!(!lib.contains(&"V".to_string()));
    assert_eq!(lib.get(&"U".to_string()).unwrap().name, "U");
    assert_eq!(lib.universal_set().name, "U");
    assert!(lib.get(&"V".to_string()).is_none());
}

#[test]
fn encoding_is_postfix() {
    let t = operation(SetOp::Difference, terminal(&["a", "b"]), reference("X"));
    let expected = format!(
        "{}a{}b{}{}X{}{}",
        SET_START, SEPARATOR, SEPARATOR, SET_END, SEPARATOR, DIFFERENCE
    );
    assert_eq!(t.to_pset_string(), expected);
    assert_eq!(SongSet::NonTerminal("X".to_string()).to_pset_string(), format!("X{}", SEPARATOR));
    let u = operation(SetOp::Union, reference("A"), operation(SetOp::Intersection, reference("B"), reference("C")));
    assert_eq!(
        u.to_pset_string(),
        format!("A{s}B{s}C{s}{}{}", INTERSECTION, UNION, s = SEPARATOR)
    );
}

#[test]
fn round_trip_and_canonical_encoding() {
    let lib = scenario_library();
    let t = operation(
        SetOp::Intersection,
        operation(SetOp::Union, terminal(&["a", "c"]), reference("X")),
        operation(SetOp::Difference, reference("U"), terminal(&["b"])),
    );
    let text = t.to_pset_string();
    let parsed = SongTree::from_pset_string(&text, &universe()).unwrap();
    assert_eq!(parsed.to_pset_string(), text);
    assert_eq!(names(&parsed.flatten(&lib).unwrap()), names(&t.flatten(&lib).unwrap()));
    assert_eq!(names(&parsed.flatten(&lib).unwrap()), vec!["a", "c"]);
}

#[test]
fn parsed_items_take_the_universe_records() {
    let text = format!("{}b{}{}", SET_START, SEPARATOR, SET_END);
    match SongTree::from_pset_string(&text, &universe()).unwrap() {
        SongTree::Leaf(SongSet::Terminal(items)) => {
            assert_eq!(items.len(), 1);
            assert_eq!(items[0].album, "b album");
            assert_eq!(items[0].duration, 60);
        }
        _ => panic!("expected a literal set"),
    }
}

#[test]
fn union_and_intersection_commute() {
    let lib = scenario_library();
    let a = || terminal(&["a", "b"]);
    let b = || reference("Z");
    for op in [SetOp::Union, SetOp::Intersection] {
        let ab = operation(op, a(), b()).flatten(&lib).unwrap();
        let ba = operation(op, b(), a()).flatten(&lib).unwrap();
        assert_eq!(names(&ab), names(&ba));
    }
}

#[test]
fn union_and_intersection_associate() {
    let lib = scenario_library();
    let a = || terminal(&["a", "b"]);
    let b = || terminal(&["b", "c"]);
    let c = || reference("Y");
    for op in [SetOp::Union, SetOp::Intersection] {
        let left = operation(op, operation(op, a(), b()), c()).flatten(&lib).unwrap();
        let right = operation(op, a(), operation(op, b(), c())).flatten(&lib).unwrap();
        assert_eq!(names(&left), names(&right));
    }
}

#[test]
fn difference_does_not_commute() {
    let lib = scenario_library();
    let ab = operation(SetOp::Difference, reference("U"), reference("X")).flatten(&lib).unwrap();
    let ba = operation(SetOp::Difference, reference("X"), reference("U")).flatten(&lib).unwrap();
    assert_eq!(names(&ab), vec!["c"]);
    assert!(ba.is_empty());
}

#[test]
fn union_with_itself_is_itself() {
    let lib = scenario_library();
    let y = flatten_named(&lib, "Y").unwrap();
    let yy = operation(SetOp::Union, reference("Y"), reference("Y")).flatten(&lib).unwrap();
    assert_eq!(names(&yy), names(&y));
}

#[test]
fn union_keeps_the_left_record() {
    let lib = Library::new(universe());
    let mut other = song("a");
    other.artist = "someone else".to_string();
    let t = operation(
        SetOp::Union,
        SongTree::Leaf(SongSet::Terminal(vec![other])),
        terminal(&["a", "b"]),
    );
    let r = t.flatten(&lib).unwrap();
    assert_eq!(names(&r), vec!["a", "b"]);
    let a = r.iter().find(|s| s.name == "a").unwrap();
    assert_eq!(a.artist, "someone else");
}

#[test]
fn literal_set_lists_each_name_once() {
    let lib = Library::new(universe());
    let r = terminal(&["a", "b", "a"]).flatten(&lib).unwrap();
    assert_eq!(names(&r), vec!["a", "b"]);
}

#[test]
fn parse_errors() {
    let u = universe();
    let parse = |s: String| SongTree::from_pset_string(&s, &u);
    assert!(matches!(parse(format!("{}a{}", SET_START, SEPARATOR)), Err(ParseError::UnterminatedLiteralSet)));
    assert!(matches!(parse(format!("a{}{}", SEPARATOR, UNION)), Err(ParseError::MissingOperands)));
    assert!(matches!(parse(format!("a{}b{}", SEPARATOR, SEPARATOR)), Err(ParseError::TrailingOperands)));
    assert!(matches!(parse(String::new()), Err(ParseError::EmptyExpression)));
    assert!(matches!(parse("abc".to_string()), Err(ParseError::EmptyExpression)));
    assert!(matches!(
        parse(format!("{}zz{}{}", SET_START, SEPARATOR, SET_END)),
        Err(ParseError::UnresolvedItemName(n)) if n == "zz"
    ));
    assert!(matches!(parse(format!("{}", SET_END)), Err(ParseError::UnexpectedToken)));
    assert!(matches!(
        parse(format!("a{}b{}{}{}", SEPARATOR, SEPARATOR, SET_START, UNION)),
        Err(ParseError::UnexpectedToken)
    ));
}

#[test]
fn playset_from_pset_string() {
    let text = format!("X{}Y{}{}", SEPARATOR, SEPARATOR, INTERSECTION);
    let p = Playset::from_pset_string(&text, "W".to_string(), &universe()).unwrap();
    assert_eq!(p.name, "W");
    assert_eq!(p.songs.to_pset_string(), text);
    assert!(matches!(
        Playset::from_pset_string("", "W".to_string(), &universe()),
        Err(ParseError::EmptyExpression)
    ));
}

#[test]
fn load_skips_and_reports() {
    let texts = vec![
        ("X".to_string(), format!("{}a{}b{}{}", SET_START, SEPARATOR, SEPARATOR, SET_END)),
        ("bad".to_string(), format!("{}", UNION)),
        ("U".to_string(), format!("X{}", SEPARATOR)),
        ("Y".to_string(), format!("U{}X{}{}", SEPARATOR, SEPARATOR, DIFFERENCE)),
        ("X".to_string(), format!("Y{}", SEPARATOR)),
    ];
    let (lib, failures) = Library::load(universe(), &texts);
    assert_eq!(lib.sets().len(), 2);
    assert_eq!(names(&flatten_named(&lib, "Y").unwrap()), vec!["c"]);
    assert_eq!(failures.len(), 3);
    assert_eq!(failures[0].name, "bad");
    assert!(matches!(failures[0].error, LoadError::Parse(ParseError::MissingOperands)));
    assert_eq!(failures[1].name, "U");
    assert!(matches!(&failures[1].error, LoadError::Store(StoreError::DuplicateName(n)) if n == "U"));
    assert_eq!(failures[2].name, "X");
    assert!(matches!(&failures[2].error, LoadError::Store(StoreError::DuplicateName(n)) if n == "X"));
}

#[test]
fn add_from_pset_string_resolves_in_universe() {
    let mut lib = Library::new(universe());
    let text = format!("{}c{}{}", SET_START, SEPARATOR, SET_END);
    assert!(lib.add_from_pset_string("C".to_string(), &text).is_ok());
    let c = flatten_named(&lib, "C").unwrap();
    assert_eq!(c[0].genre, "c genre");
    let missing = format!("{}d{}{}", SET_START, SEPARATOR, SET_END);
    assert!(matches!(
        lib.add_from_pset_string("D".to_string(), &missing),
        Err(LoadError::Parse(ParseError::UnresolvedItemName(n))) if n == "d"
    ));
    assert!(!lib.contains(&"D".to_string()));
}
