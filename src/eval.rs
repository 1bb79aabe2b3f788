//! Resolving an expression against a store into a concrete set of songs.

use vstd::prelude::*;
use crate::expr::{Expr, SetOp, SongSet, SongTree};
use crate::library::Library;
use crate::song::{
    Song, SongView, contains_name, distinct_names, insert_item, items_of, lemma_items_of, views,
};

verus! {

/// Why an expression could not be resolved.
#[derive(Debug)]
pub enum RefError {
    /// No set of that name exists.
    UnknownSetReference(String),
    /// The set of that name refers back to itself.
    CyclicReference(String),
}

/// The mathematical value of a [`RefError`].
pub enum RefFault {
    Unknown(Seq<char>),
    Cyclic(Seq<char>),
}

impl View for RefError {
    type V = RefFault;

    open spec fn view(&self) -> RefFault {
        match self {
            RefError::UnknownSetReference(n) => RefFault::Unknown(n@),
            RefError::CyclicReference(n) => RefFault::Cyclic(n@),
        }
    }
}

/// The set that `op` makes of `l` and `r`. On a name that both hold, the
/// union keeps the left record.
pub open spec fn combine(
    op: SetOp,
    l: Map<Seq<char>, SongView>,
    r: Map<Seq<char>, SongView>,
) -> Map<Seq<char>, SongView> {
    match op {
        SetOp::Union => r.union_prefer_right(l),
        SetOp::Intersection => l.restrict(r.dom()),
        SetOp::Difference => l.remove_keys(r.dom()),
    }
}

/// Adding a name of `dom` that is not yet visited leaves fewer names to visit.
pub proof fn lemma_visit_shrinks(dom: Set<Seq<char>>, visiting: Set<Seq<char>>, n: Seq<char>)
    requires
        dom.finite(),
        dom.contains(n),
        !visiting.contains(n),
    ensures
        dom.difference(visiting.insert(n)).len() < dom.difference(visiting).len(),
{
    assert(dom.difference(visiting.insert(n)) =~= dom.difference(visiting).remove(n));
}

/// The set of items that `e` resolves to, where `store` gives the expression
/// of each name and `visiting` holds the names being resolved already.
pub open spec fn eval(
    e: Expr,
    store: Map<Seq<char>, Expr>,
    visiting: Set<Seq<char>>,
) -> Result<Map<Seq<char>, SongView>, RefFault>
    decreases store.dom().difference(visiting).len(), e,
    when store.dom().finite()
{
    match e {
        Expr::Items(items) => Ok(items_of(items)),
        Expr::Ref(n) => {
            if visiting.contains(n) {
                Err(RefFault::Cyclic(n))
            } else if !store.contains_key(n) {
                Err(RefFault::Unknown(n))
            } else {
                proof {
                    lemma_visit_shrinks(store.dom(), visiting, n);
                }
                eval(store[n], store, visiting.insert(n))
            }
        },
        Expr::Op(op, l, r) => match eval(*l, store, visiting) {
            Err(f) => Err(f),
            Ok(a) => match eval(*r, store, visiting) {
                Err(f) => Err(f),
                Ok(b) => Ok(combine(op, a, b)),
            },
        },
    }
}

/// What `e` resolves to in `store`, from the start.
pub open spec fn resolve_expr(e: Expr, store: Map<Seq<char>, Expr>) -> Result<
    Map<Seq<char>, SongView>,
    RefFault,
> {
    eval(e, store, Set::empty())
}

/// `r` is the outcome `m`: the same error, or a vector that lists each item
/// of the set once.
pub open spec fn resolves_to(
    r: Result<Vec<Song>, RefError>,
    m: Result<Map<Seq<char>, SongView>, RefFault>,
) -> bool {
    match (r, m) {
        (Ok(v), Ok(s)) => distinct_names(views(v@)) && items_of(views(v@)) == s,
        (Err(e), Err(f)) => e@ == f,
        _ => false,
    }
}

/// The names that `v` holds.
pub open spec fn name_set(v: Seq<String>) -> Set<Seq<char>> {
    Set::new(|n: Seq<char>| exists|i: int| 0 <= i < v.len() && v[i]@ == n)
}

fn is_visiting(visiting: &Vec<String>, name: &String) -> (r: bool)
    ensures
        r == name_set(visiting@).contains(name@),
{
    let mut i: usize = 0;
    while i < visiting.len()
        invariant
            i <= visiting.len(),
            forall|j: int| 0 <= j < i ==> #[trigger] visiting@[j]@ != name@,
        decreases visiting.len() - i,
    {
        if visiting[i] == *name {
            return true;
        }
        i = i + 1;
    }
    false
}

/// The items of `l` and of `r`, each name once, the left record first.
fn union_items(l: &Vec<Song>, r: &Vec<Song>) -> (out: Vec<Song>)
    ensures
        distinct_names(views(out@)),
        items_of(views(out@)) == combine(SetOp::Union, items_of(views(l@)), items_of(views(r@))),
{
    let mut out: Vec<Song> = Vec::new();
    let ghost lv = views(l@);
    let ghost rv = views(r@);
    let mut i: usize = 0;
    while i < l.len()
        invariant
            i <= l.len(),
            lv == views(l@),
            distinct_names(views(out@)),
            items_of(views(out@)) == items_of(lv.take(i as int)),
        decreases l.len() - i,
    {
        proof {
            assert(lv.take(i + 1).drop_last() =~= lv.take(i as int));
        }
        insert_item(&mut out, &l[i]);
        i = i + 1;
    }
    assert(lv.take(l.len() as int) =~= lv);
    let mut j: usize = 0;
    while j < r.len()
        invariant
            j <= r.len(),
            lv == views(l@),
            rv == views(r@),
            distinct_names(views(out@)),
            items_of(views(out@)) == items_of(rv.take(j as int)).union_prefer_right(items_of(lv)),
        decreases r.len() - j,
    {
        proof {
            assert(rv.take(j + 1).drop_last() =~= rv.take(j as int));
        }
        insert_item(&mut out, &r[j]);
        proof {
            let next = items_of(rv.take(j + 1));
            assert(next.union_prefer_right(items_of(lv)) =~= items_of(views(out@)));
        }
        j = j + 1;
    }
    assert(rv.take(r.len() as int) =~= rv);
    out
}

/// The items of `l` whose name `r` holds, or, with `keep_shared` false, does
/// not hold.
fn filter_items(l: &Vec<Song>, r: &Vec<Song>, keep_shared: bool) -> (out: Vec<Song>)
    ensures
        distinct_names(views(out@)),
        keep_shared ==> items_of(views(out@)) == items_of(views(l@)).restrict(
            items_of(views(r@)).dom(),
        ),
        !keep_shared ==> items_of(views(out@)) == items_of(views(l@)).remove_keys(
            items_of(views(r@)).dom(),
        ),
{
    let mut out: Vec<Song> = Vec::new();
    let ghost lv = views(l@);
    let ghost rd = items_of(views(r@)).dom();
    proof {
        lemma_items_of(views(r@));
    }
    let mut i: usize = 0;
    while i < l.len()
        invariant
            i <= l.len(),
            lv == views(l@),
            rd == items_of(views(r@)).dom(),
            forall|n: Seq<char>| rd.contains(n) <==> #[trigger] crate::song::has_name(views(r@), n),
            distinct_names(views(out@)),
            keep_shared ==> items_of(views(out@)) == items_of(lv.take(i as int)).restrict(rd),
            !keep_shared ==> items_of(views(out@)) == items_of(lv.take(i as int)).remove_keys(rd),
        decreases l.len() - i,
    {
        proof {
            assert(lv.take(i + 1).drop_last() =~= lv.take(i as int));
            assert(lv.take(i + 1).last() == l@[i as int]@);
        }
        let shared = contains_name(r, &l[i].name);
        if shared == keep_shared {
            insert_item(&mut out, &l[i]);
        }
        proof {
            let next = items_of(lv.take(i + 1));
            if keep_shared {
                assert(next.restrict(rd) =~= items_of(views(out@)));
            } else {
                assert(next.remove_keys(rd) =~= items_of(views(out@)));
            }
        }
        i = i + 1;
    }
    assert(lv.take(l.len() as int) =~= lv);
    out
}

/// The set that `op` makes of `l` and `r`.
fn combine_items(op: SetOp, l: &Vec<Song>, r: &Vec<Song>) -> (out: Vec<Song>)
    ensures
        distinct_names(views(out@)),
        items_of(views(out@)) == combine(op, items_of(views(l@)), items_of(views(r@))),
{
    match op {
        SetOp::Union => union_items(l, r),
        SetOp::Intersection => filter_items(l, r, true),
        SetOp::Difference => filter_items(l, r, false),
    }
}

/// The items that `items` lists, each name once.
fn distinct_items(items: &Vec<Song>) -> (out: Vec<Song>)
    ensures
        distinct_names(views(out@)),
        items_of(views(out@)) == items_of(views(items@)),
{
    let mut out: Vec<Song> = Vec::new();
    let ghost v = views(items@);
    let mut i: usize = 0;
    while i < items.len()
        invariant
            i <= items.len(),
            v == views(items@),
            distinct_names(views(out@)),
            items_of(views(out@)) == items_of(v.take(i as int)),
        decreases items.len() - i,
    {
        proof {
            assert(v.take(i + 1).drop_last() =~= v.take(i as int));
        }
        insert_item(&mut out, &items[i]);
        i = i + 1;
    }
    assert(v.take(items.len() as int) =~= v);
    out
}

/// Resolving `visiting` plus `name` means resolving the names of `next`.
proof fn lemma_push_visiting(visiting: Seq<String>, name: String, next: Seq<String>)
    requires
        next == visiting.push(name),
    ensures
        name_set(next) == name_set(visiting).insert(name@),
{
    assert forall|n: Seq<char>| name_set(visiting).insert(name@).contains(n) implies #[trigger] name_set(
        next,
    ).contains(n) by {
        if n != name@ {
            let i = choose|i: int| 0 <= i < visiting.len() && visiting[i]@ == n;
            assert(next[i]@ == n);
        } else {
            assert(next[visiting.len() as int]@ == n);
        }
    }
    assert forall|n: Seq<char>| #[trigger] name_set(next).contains(n) implies name_set(
        visiting,
    ).insert(name@).contains(n) by {
        let i = choose|i: int| 0 <= i < next.len() && next[i]@ == n;
        if i < visiting.len() {
            assert(visiting[i]@ == n);
        }
    }
    assert(name_set(next) =~= name_set(visiting).insert(name@));
}

impl SongTree {
    /// Resolves this expression, with the names in `visiting` being resolved
    /// already.
    fn flatten_within(&self, lib: &Library, visiting: &Vec<String>) -> (r: Result<Vec<Song>, RefError>)
        requires
            lib.wf(),
        ensures
            resolves_to(r, eval(self.view(), lib@.store(), name_set(visiting@))),
        decreases lib@.store().dom().difference(name_set(visiting@)).len(), self,
    {
        match self {
            SongTree::Leaf(SongSet::Terminal(items)) => Ok(distinct_items(items)),
            SongTree::Leaf(SongSet::NonTerminal(name)) => {
                if is_visiting(visiting, name) {
                    return Err(RefError::CyclicReference(name.clone()));
                }
                match lib.get(name) {
                    None => Err(RefError::UnknownSetReference(name.clone())),
                    Some(p) => {
                        let mut next = visiting.clone();
                        next.push(name.clone());
                        proof {
                            lemma_push_visiting(visiting@, *name, next@);
                            lemma_visit_shrinks(lib@.store().dom(), name_set(visiting@), name@);
                        }
                        p.songs.flatten_within(lib, &next)
                    },
                }
            },
            SongTree::Operation(op, node) => {
                let l = match node.lhs.flatten_within(lib, visiting) {
                    Ok(l) => l,
                    Err(e) => return Err(e),
                };
                let r = match node.rhs.flatten_within(lib, visiting) {
                    Ok(r) => r,
                    Err(e) => return Err(e),
                };
                Ok(combine_items(*op, &l, &r))
            },
        }
    }

    /// Resolves this expression against `lib` into the set of songs it
    /// stands for. A name that refers back to itself, directly or through
    /// other sets, fails with `CyclicReference`; a name that `lib` does not
    /// hold fails with `UnknownSetReference`; the left operand's error comes
    /// first.
    pub fn flatten(&self, lib: &Library) -> (r: Result<Vec<Song>, RefError>)
        requires
            lib.wf(),
        ensures
            resolves_to(r, resolve_expr(self.view(), lib@.store())),
    {
        let visiting: Vec<String> = Vec::new();
        assert(name_set(visiting@) =~= Set::empty());
        self.flatten_within(lib, &visiting)
    }
}

impl SongSet {
    /// Resolves this leaf against `lib`: a literal set is itself, and a name
    /// resolves to what that set's expression resolves to.
    pub fn flatten(&self, lib: &Library) -> (r: Result<Vec<Song>, RefError>)
        requires
            lib.wf(),
        ensures
            resolves_to(r, resolve_expr(self.view(), lib@.store())),
    {
        match self {
            SongSet::Terminal(items) => Ok(distinct_items(items)),
            SongSet::NonTerminal(name) => match lib.get(name) {
                None => Err(RefError::UnknownSetReference(name.clone())),
                Some(p) => {
                    let mut visiting: Vec<String> = Vec::new();
                    let ghost before = visiting@;
                    visiting.push(name.clone());
                    proof {
                        lemma_push_visiting(before, *name, visiting@);
                        assert(name_set(before) =~= Set::empty());
                    }
                    p.songs.flatten_within(lib, &visiting)
                },
            },
        }
    }
}

} // verus!
