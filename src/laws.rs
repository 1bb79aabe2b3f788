//! Laws that hold of the encoding and of resolution.

use vstd::prelude::*;
use crate::eval::{RefFault, combine, eval, resolve_expr};
use crate::expr::{Expr, SetOp, serialize};
use crate::parse::{ParseFault, buildable, lemma_parse_serialize, parse};
use crate::song::SongView;

verus! {

/// `a` and `b` give the same record to each name that both hold.
pub open spec fn agree(a: Map<Seq<char>, SongView>, b: Map<Seq<char>, SongView>) -> bool {
    forall|n: Seq<char>| a.contains_key(n) && b.contains_key(n) ==> #[trigger] a[n] == #[trigger] b[n]
}

/// The expression `op(l, r)`.
pub open spec fn op(o: SetOp, l: Expr, r: Expr) -> Expr {
    Expr::Op(o, Box::new(l), Box::new(r))
}

/// Round trip: an expression built from the universe's items and from
/// names without control characters reads back from its encoding, and what
/// is read resolves, in any store, to what the expression resolves to.
pub proof fn law_round_trip(
    e: Expr,
    universe: Map<Seq<char>, SongView>,
    store: Map<Seq<char>, Expr>,
)
    requires
        buildable(e, universe),
        store.dom().finite(),
    ensures
        parse(serialize(e), universe) is Ok,
        resolve_expr(parse(serialize(e), universe)->Ok_0, store) == resolve_expr(e, store),
{
    lemma_parse_serialize(e, universe);
}

/// Canonical idempotence: encoding what is read from an encoding gives
/// that encoding back.
pub proof fn law_canonical_encoding(e: Expr, universe: Map<Seq<char>, SongView>)
    requires
        buildable(e, universe),
    ensures
        parse(serialize(e), universe) is Ok,
        serialize(parse(serialize(e), universe)->Ok_0) == serialize(e),
{
    lemma_parse_serialize(e, universe);
}

/// Union commutes: `a ∪ b` and `b ∪ a` both resolve or both fail, hold the
/// same names, and are equal where `a` and `b` agree on the records of the
/// names they share.
pub proof fn law_union_commutes(a: Expr, b: Expr, store: Map<Seq<char>, Expr>)
    requires
        store.dom().finite(),
    ensures
        ({
            let x = resolve_expr(op(SetOp::Union, a, b), store);
            let y = resolve_expr(op(SetOp::Union, b, a), store);
            &&& x is Ok <==> y is Ok
            &&& x is Ok ==> x->Ok_0.dom() == y->Ok_0.dom()
            &&& x is Ok && agree(resolve_expr(a, store)->Ok_0, resolve_expr(b, store)->Ok_0) ==> x
                == y
        }),
{
    let x = resolve_expr(op(SetOp::Union, a, b), store);
    let y = resolve_expr(op(SetOp::Union, b, a), store);
    if x is Ok {
        let ma = resolve_expr(a, store)->Ok_0;
        let mb = resolve_expr(b, store)->Ok_0;
        assert(x->Ok_0.dom() =~= y->Ok_0.dom());
        if agree(ma, mb) {
            assert(x->Ok_0 =~= y->Ok_0);
        }
    }
}

/// Intersection commutes: `a ∩ b` and `b ∩ a` both resolve or both fail,
/// hold the same names, and are equal where `a` and `b` agree on the records
/// of the names they share.
pub proof fn law_intersection_commutes(a: Expr, b: Expr, store: Map<Seq<char>, Expr>)
    requires
        store.dom().finite(),
    ensures
        ({
            let x = resolve_expr(op(SetOp::Intersection, a, b), store);
            let y = resolve_expr(op(SetOp::Intersection, b, a), store);
            &&& x is Ok <==> y is Ok
            &&& x is Ok ==> x->Ok_0.dom() == y->Ok_0.dom()
            &&& x is Ok && agree(resolve_expr(a, store)->Ok_0, resolve_expr(b, store)->Ok_0) ==> x
                == y
        }),
{
    let x = resolve_expr(op(SetOp::Intersection, a, b), store);
    let y = resolve_expr(op(SetOp::Intersection, b, a), store);
    if x is Ok {
        let ma = resolve_expr(a, store)->Ok_0;
        let mb = resolve_expr(b, store)->Ok_0;
        assert(x->Ok_0.dom() =~= y->Ok_0.dom());
        if agree(ma, mb) {
            assert(x->Ok_0 =~= y->Ok_0);
        }
    }
}

/// Union is associative: `(a ∪ b) ∪ c` and `a ∪ (b ∪ c)` have the same
/// outcome.
pub proof fn law_union_associative(a: Expr, b: Expr, c: Expr, store: Map<Seq<char>, Expr>)
    requires
        store.dom().finite(),
    ensures
        resolve_expr(op(SetOp::Union, op(SetOp::Union, a, b), c), store) == resolve_expr(
            op(SetOp::Union, a, op(SetOp::Union, b, c)),
            store,
        ),
{
    let ra = resolve_expr(a, store);
    let rb = resolve_expr(b, store);
    let rc = resolve_expr(c, store);
    let rab = resolve_expr(op(SetOp::Union, a, b), store);
    let rbc = resolve_expr(op(SetOp::Union, b, c), store);
    assert(ra is Err ==> rab == ra);
    assert(ra is Ok && rb is Err ==> rab == rb);
    assert(rb is Err ==> rbc == rb);
    assert(rb is Ok && rc is Err ==> rbc == rc);
    if ra is Ok && rb is Ok && rc is Ok {
        let (ma, mb, mc) = (ra->Ok_0, rb->Ok_0, rc->Ok_0);
        assert(rab == Ok::<Map<Seq<char>, SongView>, RefFault>(combine(SetOp::Union, ma, mb)));
        assert(rbc == Ok::<Map<Seq<char>, SongView>, RefFault>(combine(SetOp::Union, mb, mc)));
        assert(combine(SetOp::Union, combine(SetOp::Union, ma, mb), mc) =~= combine(
            SetOp::Union,
            ma,
            combine(SetOp::Union, mb, mc),
        ));
    }
}

/// Intersection is associative: `(a ∩ b) ∩ c` and `a ∩ (b ∩ c)` have the
/// same outcome.
pub proof fn law_intersection_associative(a: Expr, b: Expr, c: Expr, store: Map<Seq<char>, Expr>)
    requires
        store.dom().finite(),
    ensures
        resolve_expr(op(SetOp::Intersection, op(SetOp::Intersection, a, b), c), store)
            == resolve_expr(op(SetOp::Intersection, a, op(SetOp::Intersection, b, c)), store),
{
    let ra = resolve_expr(a, store);
    let rb = resolve_expr(b, store);
    let rc = resolve_expr(c, store);
    let rab = resolve_expr(op(SetOp::Intersection, a, b), store);
    let rbc = resolve_expr(op(SetOp::Intersection, b, c), store);
    assert(ra is Err ==> rab == ra);
    assert(ra is Ok && rb is Err ==> rab == rb);
    assert(rb is Err ==> rbc == rb);
    assert(rb is Ok && rc is Err ==> rbc == rc);
    if ra is Ok && rb is Ok && rc is Ok {
        let (ma, mb, mc) = (ra->Ok_0, rb->Ok_0, rc->Ok_0);
        assert(rab == Ok::<Map<Seq<char>, SongView>, RefFault>(combine(SetOp::Intersection, ma, mb)));
        assert(rbc == Ok::<Map<Seq<char>, SongView>, RefFault>(combine(SetOp::Intersection, mb, mc)));
        assert(combine(SetOp::Intersection, combine(SetOp::Intersection, ma, mb), mc) =~= combine(
            SetOp::Intersection,
            ma,
            combine(SetOp::Intersection, mb, mc),
        ));
    }
}

/// The union of a set with itself is that set.
pub proof fn law_union_idempotent(a: Expr, store: Map<Seq<char>, Expr>)
    requires
        store.dom().finite(),
    ensures
        resolve_expr(op(SetOp::Union, a, a), store) == resolve_expr(a, store),
{
    let ra = resolve_expr(a, store);
    if ra is Ok {
        assert(combine(SetOp::Union, ra->Ok_0, ra->Ok_0) =~= ra->Ok_0);
    }
}

/// Difference does not commute: `a − b` and `b − a` both resolve or both
/// fail, share no name, and hold the same names only where `a` and `b` do.
pub proof fn law_difference_order(a: Expr, b: Expr, store: Map<Seq<char>, Expr>)
    requires
        store.dom().finite(),
    ensures
        ({
            let x = resolve_expr(op(SetOp::Difference, a, b), store);
            let y = resolve_expr(op(SetOp::Difference, b, a), store);
            &&& x is Ok <==> y is Ok
            &&& x is Ok ==> x->Ok_0.dom().disjoint(y->Ok_0.dom())
            &&& x is Ok ==> (x->Ok_0.dom() == y->Ok_0.dom() <==> resolve_expr(a, store)->Ok_0.dom()
                == resolve_expr(b, store)->Ok_0.dom())
        }),
{
    let x = resolve_expr(op(SetOp::Difference, a, b), store);
    let y = resolve_expr(op(SetOp::Difference, b, a), store);
    if x is Ok {
        let da = resolve_expr(a, store)->Ok_0.dom();
        let db = resolve_expr(b, store)->Ok_0.dom();
        let dx = x->Ok_0.dom();
        let dy = y->Ok_0.dom();
        assert(dx =~= da.difference(db));
        assert(dy =~= db.difference(da));
        if dx == dy {
            assert(da =~= db) by {
                assert forall|n: Seq<char>| da.contains(n) implies db.contains(n) by {
                    if !db.contains(n) {
                        assert(dx.contains(n));
                    }
                }
                assert forall|n: Seq<char>| db.contains(n) implies da.contains(n) by {
                    if !da.contains(n) {
                        assert(dy.contains(n));
                    }
                }
            }
        }
        if da == db {
            assert(dx =~= dy);
        }
    }
}

/// Cycle safety: a set whose expression is its own name fails to resolve
/// with a cyclic reference to that name.
pub proof fn law_self_reference_fails(x: Seq<char>, store: Map<Seq<char>, Expr>)
    requires
        store.dom().finite(),
        store.contains_key(x),
        store[x] == Expr::Ref(x),
    ensures
        resolve_expr(Expr::Ref(x), store) == Err::<Map<Seq<char>, SongView>, RefFault>(
            RefFault::Cyclic(x),
        ),
{
    let visited = Set::<Seq<char>>::empty().insert(x);
    assert(visited.contains(x));
    assert(eval(Expr::Ref(x), store, visited) == Err::<Map<Seq<char>, SongView>, RefFault>(
        RefFault::Cyclic(x),
    ));
}

/// Unknown reference: a name that the store does not hold fails to resolve
/// as unknown.
pub proof fn law_unknown_reference_fails(n: Seq<char>, store: Map<Seq<char>, Expr>)
    requires
        store.dom().finite(),
        !store.contains_key(n),
    ensures
        resolve_expr(Expr::Ref(n), store) == Err::<Map<Seq<char>, SongView>, RefFault>(
            RefFault::Unknown(n),
        ),
{
}

} // verus!
