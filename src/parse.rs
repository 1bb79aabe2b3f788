//! Reading an expression back from its postfix encoding.

use vstd::prelude::*;
use crate::expr::{Expr, SetOp, SongSet, SongTree, SongTreeNode, encode_names, op_char, serialize};
use crate::format::{is_plain, is_control, push_char, SEPARATOR, SET_START, SET_END, UNION, INTERSECTION, DIFFERENCE};
use crate::library::Playset;
use crate::song::{Song, SongView, items_of, resolve, views};

verus! {

/// Why a text is not the encoding of an expression.
#[derive(Debug)]
pub enum ParseError {
    /// The text ends inside a literal set.
    UnterminatedLiteralSet,
    /// An operator has fewer than two operands before it.
    MissingOperands,
    /// More than one operand is left at the end.
    TrailingOperands,
    /// No operand is left at the end.
    EmptyExpression,
    /// A literal set names an item that the universe does not hold.
    UnresolvedItemName(String),
    /// A set closes outside a literal set, or an operator stands inside one.
    UnexpectedToken,
}

/// The mathematical value of a [`ParseError`].
pub enum ParseFault {
    UnterminatedLiteralSet,
    MissingOperands,
    TrailingOperands,
    EmptyExpression,
    UnresolvedItemName(Seq<char>),
    UnexpectedToken,
}

impl View for ParseError {
    type V = ParseFault;

    open spec fn view(&self) -> ParseFault {
        match self {
            ParseError::UnterminatedLiteralSet => ParseFault::UnterminatedLiteralSet,
            ParseError::MissingOperands => ParseFault::MissingOperands,
            ParseError::TrailingOperands => ParseFault::TrailingOperands,
            ParseError::EmptyExpression => ParseFault::EmptyExpression,
            ParseError::UnresolvedItemName(n) => ParseFault::UnresolvedItemName(n@),
            ParseError::UnexpectedToken => ParseFault::UnexpectedToken,
        }
    }
}

/// Where the scan stands: the operands read so far, the name being read,
/// the items of the literal set being read, and whether one is open.
pub struct ParseState {
    pub stack: Seq<Expr>,
    pub name: Seq<char>,
    pub items: Seq<SongView>,
    pub inside: bool,
}

/// The state before the first character.
pub open spec fn start_state() -> ParseState {
    ParseState { stack: Seq::empty(), name: Seq::empty(), items: Seq::empty(), inside: false }
}

/// `c` encodes a set operation.
pub open spec fn is_op_char(c: char) -> bool {
    c == UNION || c == INTERSECTION || c == DIFFERENCE
}

/// The operation that `c` encodes.
pub open spec fn char_op(c: char) -> SetOp {
    if c == UNION {
        SetOp::Union
    } else if c == INTERSECTION {
        SetOp::Intersection
    } else {
        SetOp::Difference
    }
}

/// Reads one character; `universe` resolves item names to records.
pub open spec fn step(st: ParseState, c: char, universe: Map<Seq<char>, SongView>) -> Result<
    ParseState,
    ParseFault,
> {
    if c == SEPARATOR {
        if st.inside {
            if universe.contains_key(st.name) {
                Ok(
                    ParseState {
                        stack: st.stack,
                        name: Seq::empty(),
                        items: st.items.push(universe[st.name]),
                        inside: true,
                    },
                )
            } else {
                Err(ParseFault::UnresolvedItemName(st.name))
            }
        } else {
            Ok(
                ParseState {
                    stack: st.stack.push(Expr::Ref(st.name)),
                    name: Seq::empty(),
                    items: st.items,
                    inside: false,
                },
            )
        }
    } else if c == SET_START {
        Ok(ParseState { stack: st.stack, name: st.name, items: st.items, inside: true })
    } else if c == SET_END {
        if st.inside {
            Ok(
                ParseState {
                    stack: st.stack.push(Expr::Items(st.items)),
                    name: st.name,
                    items: Seq::empty(),
                    inside: false,
                },
            )
        } else {
            Err(ParseFault::UnexpectedToken)
        }
    } else if is_op_char(c) {
        if st.inside {
            Err(ParseFault::UnexpectedToken)
        } else if st.stack.len() < 2 {
            Err(ParseFault::MissingOperands)
        } else {
            let n = st.stack.len() as int;
            Ok(
                ParseState {
                    stack: st.stack.take(n - 2).push(
                        Expr::Op(char_op(c), Box::new(st.stack[n - 2]), Box::new(st.stack[n - 1])),
                    ),
                    name: st.name,
                    items: st.items,
                    inside: false,
                },
            )
        }
    } else {
        Ok(ParseState { stack: st.stack, name: st.name.push(c), items: st.items, inside: st.inside })
    }
}

/// Reads `s` from the outcome `r`; an error stays.
pub open spec fn feed(
    r: Result<ParseState, ParseFault>,
    s: Seq<char>,
    universe: Map<Seq<char>, SongView>,
) -> Result<ParseState, ParseFault>
    decreases s.len(),
{
    if s.len() == 0 {
        r
    } else {
        match feed(r, s.drop_last(), universe) {
            Ok(st) => step(st, s.last(), universe),
            Err(f) => Err(f),
        }
    }
}

/// The expression that `s` encodes, with item names resolved by `universe`.
pub open spec fn parse(s: Seq<char>, universe: Map<Seq<char>, SongView>) -> Result<Expr, ParseFault> {
    match feed(Ok(start_state()), s, universe) {
        Err(f) => Err(f),
        Ok(st) => if st.inside {
            Err(ParseFault::UnterminatedLiteralSet)
        } else if st.stack.len() == 0 {
            Err(ParseFault::EmptyExpression)
        } else if st.stack.len() > 1 {
            Err(ParseFault::TrailingOperands)
        } else {
            Ok(st.stack[0])
        },
    }
}

/// `r` is the outcome `p`.
pub open spec fn parses_to(r: Result<SongTree, ParseError>, p: Result<Expr, ParseFault>) -> bool {
    match (r, p) {
        (Ok(t), Ok(e)) => t.view() == e,
        (Err(x), Err(f)) => x@ == f,
        _ => false,
    }
}

/// The expressions of a stack of trees.
pub open spec fn stack_view(s: Seq<SongTree>) -> Seq<Expr> {
    s.map_values(|t: SongTree| t.view())
}

/// Reading `a` and then `b` is reading `a + b`.
pub proof fn lemma_feed_append(
    r: Result<ParseState, ParseFault>,
    a: Seq<char>,
    b: Seq<char>,
    universe: Map<Seq<char>, SongView>,
)
    ensures
        feed(r, a + b, universe) == feed(feed(r, a, universe), b, universe),
    decreases b.len(),
{
    if b.len() == 0 {
        assert(a + b =~= a);
    } else {
        assert((a + b).drop_last() =~= a + b.drop_last());
        lemma_feed_append(r, a, b.drop_last(), universe);
    }
}

/// An error stays whatever follows.
pub proof fn lemma_feed_error(f: ParseFault, s: Seq<char>, universe: Map<Seq<char>, SongView>)
    ensures
        feed(Err(f), s, universe) == Err::<ParseState, ParseFault>(f),
    decreases s.len(),
{
    if s.len() > 0 {
        lemma_feed_error(f, s.drop_last(), universe);
    }
}

fn op_of_char(c: char) -> (op: SetOp)
    ensures
        op == char_op(c),
{
    if c == UNION {
        SetOp::Union
    } else if c == INTERSECTION {
        SetOp::Intersection
    } else {
        SetOp::Difference
    }
}

/// The error `f` of the character at `i` is the outcome of all of `s`.
proof fn lemma_fails_at(s: Seq<char>, i: int, universe: Map<Seq<char>, SongView>, f: ParseFault)
    requires
        0 <= i < s.len(),
        feed(Ok(start_state()), s.take(i + 1), universe) == Err::<ParseState, ParseFault>(f),
    ensures
        parse(s, universe) == Err::<Expr, ParseFault>(f),
{
    assert(s =~= s.take(i + 1) + s.skip(i + 1));
    lemma_feed_append(Ok(start_state()), s.take(i + 1), s.skip(i + 1), universe);
    lemma_feed_error(f, s.skip(i + 1), universe);
}

/// Each of `items` is the record that `universe` holds under its name, and
/// that name holds no control character.
pub open spec fn items_buildable(items: Seq<SongView>, universe: Map<Seq<char>, SongView>) -> bool {
    forall|i: int|
        0 <= i < items.len() ==> {
            &&& is_plain(#[trigger] items[i].name)
            &&& universe.contains_key(items[i].name)
            &&& universe[items[i].name] == items[i]
        }
}

/// `e` encodes and reads back as itself: its names hold no control
/// character, and each item it lists is the record that `universe` holds
/// under its name.
pub open spec fn buildable(e: Expr, universe: Map<Seq<char>, SongView>) -> bool
    decreases e,
{
    match e {
        Expr::Items(items) => items_buildable(items, universe),
        Expr::Ref(n) => is_plain(n),
        Expr::Op(_, l, r) => buildable(*l, universe) && buildable(*r, universe),
    }
}

proof fn lemma_feed_one(st: ParseState, c: char, universe: Map<Seq<char>, SongView>)
    ensures
        feed(Ok(st), seq![c], universe) == step(st, c, universe),
{
    assert(seq![c].drop_last() =~= Seq::<char>::empty());
    assert(seq![c].last() == c);
    assert(feed(Ok(st), Seq::<char>::empty(), universe) == Ok::<ParseState, ParseFault>(st));
}

/// A name without control characters is read into the name being read.
proof fn lemma_feed_plain(st: ParseState, name: Seq<char>, universe: Map<Seq<char>, SongView>)
    requires
        is_plain(name),
    ensures
        feed(Ok(st), name, universe) == Ok::<ParseState, ParseFault>(
            ParseState { stack: st.stack, name: st.name + name, items: st.items, inside: st.inside },
        ),
    decreases name.len(),
{
    if name.len() == 0 {
        assert(st.name + name =~= st.name);
    } else {
        lemma_feed_plain(st, name.drop_last(), universe);
        assert(!is_control(name[name.len() - 1]));
        assert((st.name + name.drop_last()).push(name.last()) =~= st.name + name);
    }
}

/// Inside a literal set, the encoded names of `items` add `items`.
proof fn lemma_feed_names(st: ParseState, items: Seq<SongView>, universe: Map<Seq<char>, SongView>)
    requires
        st.inside,
        st.name == Seq::<char>::empty(),
        items_buildable(items, universe),
    ensures
        feed(Ok(st), encode_names(items), universe) == Ok::<ParseState, ParseFault>(
            ParseState { stack: st.stack, name: st.name, items: st.items + items, inside: true },
        ),
    decreases items.len(),
{
    if items.len() == 0 {
        assert(st.items + items =~= st.items);
    } else {
        let p = items.drop_last();
        let x = items.last();
        assert(items_buildable(p, universe)) by {
            assert forall|i: int| 0 <= i < p.len() implies {
                &&& is_plain(#[trigger] p[i].name)
                &&& universe.contains_key(p[i].name)
                &&& universe[p[i].name] == p[i]
            } by {
                assert(p[i] == items[i]);
                assert(is_plain(items[i].name));
            }
        }
        assert(is_plain(items[items.len() - 1].name));
        lemma_feed_names(st, p, universe);
        let st1 = ParseState { stack: st.stack, name: st.name, items: st.items + p, inside: true };
        lemma_feed_append(Ok(st), encode_names(p), x.name.push(SEPARATOR), universe);
        assert(x.name.push(SEPARATOR) =~= x.name + seq![SEPARATOR]);
        lemma_feed_append(Ok(st1), x.name, seq![SEPARATOR], universe);
        lemma_feed_plain(st1, x.name, universe);
        assert(st1.name + x.name =~= x.name);
        let st2 = ParseState { stack: st.stack, name: x.name, items: st.items + p, inside: true };
        lemma_feed_one(st2, SEPARATOR, universe);
        assert((st.items + p).push(x) =~= st.items + items);
    }
}

/// Outside a literal set, the encoding of a buildable expression pushes it.
pub proof fn lemma_feed_serialize(st: ParseState, e: Expr, universe: Map<Seq<char>, SongView>)
    requires
        !st.inside,
        st.name == Seq::<char>::empty(),
        st.items == Seq::<SongView>::empty(),
        buildable(e, universe),
    ensures
        feed(Ok(st), serialize(e), universe) == Ok::<ParseState, ParseFault>(
            ParseState { stack: st.stack.push(e), name: st.name, items: st.items, inside: false },
        ),
    decreases e,
{
    match e {
        Expr::Items(items) => {
            let a = seq![SET_START];
            let b = encode_names(items);
            let c = seq![SET_END];
            lemma_feed_append(Ok(st), a + b, c, universe);
            lemma_feed_append(Ok(st), a, b, universe);
            lemma_feed_one(st, SET_START, universe);
            let st1 = ParseState { stack: st.stack, name: st.name, items: st.items, inside: true };
            lemma_feed_names(st1, items, universe);
            let st2 = ParseState { stack: st.stack, name: st.name, items: st.items + items, inside: true };
            lemma_feed_one(st2, SET_END, universe);
            assert(st.items + items =~= items);
        },
        Expr::Ref(n) => {
            assert(n.push(SEPARATOR) =~= n + seq![SEPARATOR]);
            lemma_feed_append(Ok(st), n, seq![SEPARATOR], universe);
            lemma_feed_plain(st, n, universe);
            assert(st.name + n =~= n);
            let st1 = ParseState { stack: st.stack, name: n, items: st.items, inside: false };
            lemma_feed_one(st1, SEPARATOR, universe);
        },
        Expr::Op(op, l, r) => {
            let sl = serialize(*l);
            let sr = serialize(*r);
            lemma_feed_append(Ok(st), sl + sr, seq![op_char(op)], universe);
            lemma_feed_append(Ok(st), sl, sr, universe);
            lemma_feed_serialize(st, *l, universe);
            let st1 = ParseState { stack: st.stack.push(*l), name: st.name, items: st.items, inside: false };
            lemma_feed_serialize(st1, *r, universe);
            let st2 = ParseState { stack: st1.stack.push(*r), name: st.name, items: st.items, inside: false };
            lemma_feed_one(st2, op_char(op), universe);
            let n = st2.stack.len() as int;
            assert(st2.stack.take(n - 2) =~= st.stack);
            assert(char_op(op_char(op)) == op);
            assert(Box::new(st2.stack[n - 2]) == l);
            assert(Box::new(st2.stack[n - 1]) == r);
        },
    }
}

/// A buildable expression reads back from its encoding as itself.
pub proof fn lemma_parse_serialize(e: Expr, universe: Map<Seq<char>, SongView>)
    requires
        buildable(e, universe),
    ensures
        parse(serialize(e), universe) == Ok::<Expr, ParseFault>(e),
{
    lemma_feed_serialize(start_state(), e, universe);
    assert(start_state().stack.push(e) =~= seq![e]);
}

impl SongTree {
    /// Reads the expression that `s` encodes; each name inside a literal set
    /// is resolved to the record that `universe` holds under it.
    pub fn from_pset_string(s: &str, universe: &Vec<Song>) -> (r: Result<SongTree, ParseError>)
        ensures
            parses_to(r, parse(s@, items_of(views(universe@)))),
    {
        let ghost u = items_of(views(universe@));
        let mut stack: Vec<SongTree> = Vec::new();
        let mut set_buffer: Vec<Song> = Vec::new();
        let mut name_buffer = String::new();
        let mut collecting = false;
        assert(s@.take(0) =~= Seq::<char>::empty());
        assert(stack_view(stack@) =~= Seq::<Expr>::empty());
        assert(views(set_buffer@) =~= Seq::<SongView>::empty());
        for c in it: s.chars()
            invariant
                it.seq() == s@,
                u == items_of(views(universe@)),
                feed(Ok(start_state()), s@.take(it.index() as int), u) == Ok::<ParseState, ParseFault>(
                    ParseState {
                        stack: stack_view(stack@),
                        name: name_buffer@,
                        items: views(set_buffer@),
                        inside: collecting,
                    },
                ),
        {
            let ghost i = it.index();
            let ghost st = ParseState {
                stack: stack_view(stack@),
                name: name_buffer@,
                items: views(set_buffer@),
                inside: collecting,
            };
            proof {
                assert(s@.take(i + 1).drop_last() =~= s@.take(i as int));
                assert(feed(Ok(start_state()), s@.take(i + 1), u) == step(st, c, u));
            }
            if c == SEPARATOR {
                if collecting {
                    match resolve(universe, &name_buffer) {
                        Some(song) => {
                            set_buffer.push(song);
                            name_buffer = String::new();
                            assert(views(set_buffer@) =~= st.items.push(u[st.name]));
                        },
                        None => {
                            proof {
                                lemma_fails_at(s@, i as int, u, ParseFault::UnresolvedItemName(st.name));
                            }
                            return Err(ParseError::UnresolvedItemName(name_buffer));
                        },
                    }
                } else {
                    let name = name_buffer;
                    name_buffer = String::new();
                    stack.push(SongTree::Leaf(SongSet::NonTerminal(name)));
                    assert(stack_view(stack@) =~= st.stack.push(Expr::Ref(st.name)));
                }
            } else if c == SET_START {
                collecting = true;
            } else if c == SET_END {
                if !collecting {
                    proof {
                        lemma_fails_at(s@, i as int, u, ParseFault::UnexpectedToken);
                    }
                    return Err(ParseError::UnexpectedToken);
                }
                collecting = false;
                let items = set_buffer;
                set_buffer = Vec::new();
                stack.push(SongTree::Leaf(SongSet::Terminal(items)));
                assert(stack_view(stack@) =~= st.stack.push(Expr::Items(st.items)));
                assert(views(set_buffer@) =~= Seq::<SongView>::empty());
            } else if c == UNION || c == INTERSECTION || c == DIFFERENCE {
                if collecting {
                    proof {
                        lemma_fails_at(s@, i as int, u, ParseFault::UnexpectedToken);
                    }
                    return Err(ParseError::UnexpectedToken);
                }
                if stack.len() < 2 {
                    proof {
                        lemma_fails_at(s@, i as int, u, ParseFault::MissingOperands);
                    }
                    return Err(ParseError::MissingOperands);
                }
                let ghost n = stack@.len() as int;
                let right = stack.pop().unwrap();
                let left = stack.pop().unwrap();
                let op = op_of_char(c);
                stack.push(
                    SongTree::Operation(op, SongTreeNode { lhs: Box::new(left), rhs: Box::new(right) }),
                );
                assert(stack_view(stack@) =~= st.stack.take(n - 2).push(
                    Expr::Op(char_op(c), Box::new(st.stack[n - 2]), Box::new(st.stack[n - 1])),
                ));
            } else {
                push_char(&mut name_buffer, c);
            }
        }
        assert(s@.take(s@.len() as int) =~= s@);
        if collecting {
            return Err(ParseError::UnterminatedLiteralSet);
        }
        if stack.len() == 0 {
            return Err(ParseError::EmptyExpression);
        }
        if stack.len() > 1 {
            return Err(ParseError::TrailingOperands);
        }
        Ok(stack.pop().unwrap())
    }
}

impl Playset {
    /// The set named `name` whose expression `s` encodes.
    pub fn from_pset_string(s: &str, name: String, universe: &Vec<Song>) -> (r: Result<
        Playset,
        ParseError,
    >)
        ensures
            match (r, parse(s@, items_of(views(universe@)))) {
                (Ok(p), Ok(e)) => p.name == name && p.songs.view() == e,
                (Err(x), Err(f)) => x@ == f,
                _ => false,
            },
    {
        match SongTree::from_pset_string(s, universe) {
            Ok(songs) => Ok(Playset { name, songs }),
            Err(e) => Err(e),
        }
    }
}

} // verus!
