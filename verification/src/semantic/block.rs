//! Blocks: which statement is the result, and what type the block has.

use vstd::prelude::*;

use crate::ast::Type;
use crate::ast::TypeV;
use crate::const_eval::told;
use crate::expr::{Block, Expr, Stmt};
use crate::semantic::given::{checks_exprs, checks_stmts, comparable, exprs_fit, stmts_fit, Checked};
use crate::semantic::TypeChecker;

verus! {

/// The type of a block, from what checking its statements gave: that of the last,
/// or the first error. An empty block has the unit type.
pub open spec fn block_type(results: Seq<Result<TypeV, Seq<char>>>) -> Result<TypeV, Seq<char>>
    decreases results.len(),
{
    if results.len() == 0 {
        Ok(TypeV::Unit)
    } else {
        match block_type(results.drop_last()) {
            Err(e) => Err(e),
            Ok(_) => results.last(),
        }
    }
}

/// What each statement gave.
pub open spec fn outcomes(results: Seq<Result<Type, String>>) -> Seq<Result<TypeV, Seq<char>>> {
    results.map_values(|r: Result<Type, String>| told(r))
}

/// A block has a type only where each of its statements has one.
pub proof fn lemma_block_type(results: Seq<Result<TypeV, Seq<char>>>)
    ensures
        block_type(results) is Ok <==> forall|i: int|
            0 <= i < results.len() ==> (#[trigger] results[i]) is Ok,
        block_type(results) is Ok && results.len() > 0 ==> block_type(results) == results.last(),
    decreases results.len(),
{
    if results.len() > 0 {
        let front = results.drop_last();
        lemma_block_type(front);
        if block_type(results) is Ok {
            assert forall|i: int| 0 <= i < results.len() implies (#[trigger] results[i]) is Ok by {
                if i < front.len() {
                    assert(front[i] is Ok);
                }
            }
        } else if block_type(front) is Err {
            let i = choose|i: int| 0 <= i < front.len() && !((#[trigger] front[i]) is Ok);
            assert(!(results[i] is Ok));
        }
    }
}

/// Whether checking statement `i` of a block may take the checker from `before` to
/// `after` and give `r`. The result of the block is checked with the type that is
/// expected of the block.
pub open spec fn stmt_checked<
    S: Fn(TypeChecker, &Stmt) -> Checked<Type>,
    X: Fn(TypeChecker, &Expr, Option<&Type>) -> Checked<Type>,
>(
    s: S,
    x: X,
    block: &Block,
    expected: Option<&Type>,
    i: int,
    before: TypeChecker,
    after: TypeChecker,
    r: Result<Type, String>,
) -> bool {
    match block.stmts@[i] {
        Stmt::ExprStmt(e) if i == block.stmts@.len() - 1 => call_ensures(
            x,
            (before, &e, expected),
            (after, r),
        ),
        _ => call_ensures(s, (before, &block.stmts@[i]), (after, r)),
    }
}

/// Whether checking the first statements of a block in order may take the checker
/// through the given states and give the given results.
pub open spec fn stmts_checked<
    S: Fn(TypeChecker, &Stmt) -> Checked<Type>,
    X: Fn(TypeChecker, &Expr, Option<&Type>) -> Checked<Type>,
>(
    s: S,
    x: X,
    block: &Block,
    expected: Option<&Type>,
    states: Seq<TypeChecker>,
    results: Seq<Result<Type, String>>,
) -> bool {
    &&& results.len() <= block.stmts@.len()
    &&& states.len() == results.len() + 1
    &&& forall|i: int|
        0 <= i < results.len() ==> stmt_checked(
            s,
            x,
            block,
            expected,
            i,
            states[i],
            states[i + 1],
            #[trigger] results[i],
        )
}

/// Whether checking a block may take the checker from `before` to `after` and give `r`:
/// its statements are checked in order, up to the first error.
pub open spec fn block_checked<
    S: Fn(TypeChecker, &Stmt) -> Checked<Type>,
    X: Fn(TypeChecker, &Expr, Option<&Type>) -> Checked<Type>,
>(
    s: S,
    x: X,
    block: &Block,
    expected: Option<&Type>,
    before: TypeChecker,
    after: TypeChecker,
    r: Result<Type, String>,
) -> bool {
    exists|states: Seq<TypeChecker>, results: Seq<Result<Type, String>>|
        {
            &&& #[trigger] stmts_checked(s, x, block, expected, states, results)
            &&& states[0] == before
            &&& states.last() == after
            &&& forall|i: int| 0 <= i < results.len() - 1 ==> (#[trigger] results[i]) is Ok
            &&& results.len() < block.stmts@.len() ==> results.len() > 0 && results.last() is Err
            &&& told(r) == block_type(outcomes(results))
        }
}

/// The type of a block can be held against a wanted type where the types of its
/// statements can.
pub proof fn lemma_block_comparable<
    S: Fn(TypeChecker, &Stmt) -> Checked<Type>,
    X: Fn(TypeChecker, &Expr, Option<&Type>) -> Checked<Type>,
>(
    s: S,
    x: X,
    block: &Block,
    expected: Option<&Type>,
    before: TypeChecker,
    after: TypeChecker,
    t: Type,
    want: TypeV,
)
    requires
        block_checked(s, x, block, expected, before, after, Ok(t)),
        exprs_fit(x, Some(want)),
        stmts_fit(s, Some(want)),
    ensures
        comparable(t.deep_view(), want),
{
    let (states, results) = choose|states: Seq<TypeChecker>, results: Seq<Result<Type, String>>|
        {
            &&& #[trigger] stmts_checked(s, x, block, expected, states, results)
            &&& states[0] == before
            &&& states.last() == after
            &&& forall|i: int| 0 <= i < results.len() - 1 ==> (#[trigger] results[i]) is Ok
            &&& results.len() < block.stmts@.len() ==> results.len() > 0 && results.last() is Err
            &&& told(Ok::<Type, String>(t)) == block_type(outcomes(results))
        };
    lemma_block_type(outcomes(results));
    if results.len() > 0 {
        let k = results.len() - 1;
        assert(outcomes(results).last() == told(results[k]));
        assert(stmt_checked(s, x, block, expected, k, states[k], states[k + 1], results[k]));
        let u = results[k]->Ok_0;
        assert(results[k] == Ok::<Type, String>(u));
    }
}

impl TypeChecker {
    /// The type of a block of which nothing is expected.
    pub fn check_block<
        S: Copy + Fn(TypeChecker, &Stmt) -> Checked<Type>,
        X: Copy + Fn(TypeChecker, &Expr, Option<&Type>) -> Checked<Type>,
    >(&mut self, block: &Block, check_stmt: S, check_expr: X) -> (r: Result<Type, String>)
        requires
            checks_stmts(check_stmt),
            checks_exprs(check_expr),
        ensures
            block_checked(check_stmt, check_expr, block, None, *old(self), *final(self), r),
    {
        self.check_block_with_expected(block, None, check_stmt, check_expr)
    }

    /// The type of a block: its statements are checked in order, the last with the
    /// expected type where it is the result.
    pub fn check_block_with_expected<
        S: Copy + Fn(TypeChecker, &Stmt) -> Checked<Type>,
        X: Copy + Fn(TypeChecker, &Expr, Option<&Type>) -> Checked<Type>,
    >(
        &mut self,
        block: &Block,
        expected: Option<&Type>,
        check_stmt: S,
        check_expr: X,
    ) -> (r: Result<Type, String>)
        requires
            checks_stmts(check_stmt),
            checks_exprs(check_expr),
        ensures
            block_checked(check_stmt, check_expr, block, expected, *old(self), *final(self), r),
    {
        let ghost mut states: Seq<TypeChecker> = seq![*self];
        let ghost mut results: Seq<Result<Type, String>> = Seq::empty();
        let mut last: Type = Type::Unit;
        let mut i: usize = 0;
        assert(outcomes(results) =~= Seq::empty());
        while i < block.stmts.len()
            invariant
                i <= block.stmts.len(),
                checks_stmts(check_stmt),
                checks_exprs(check_expr),
                results.len() == i,
                stmts_checked(check_stmt, check_expr, block, expected, states, results),
                states[0] == *old(self),
                states.last() == *self,
                forall|j: int| 0 <= j < results.len() ==> (#[trigger] results[j]) is Ok,
                Ok::<TypeV, Seq<char>>(last.deep_view()) == block_type(outcomes(results)),
            decreases block.stmts.len() - i,
        {
            let stmt = &block.stmts[i];
            let r = match stmt {
                Stmt::ExprStmt(e) if i + 1 == block.stmts.len() => self.ask_expr(
                    check_expr,
                    e,
                    expected,
                ),
                _ => self.ask_stmt(check_stmt, stmt),
            };
            proof {
                let before = outcomes(results);
                results = results.push(r);
                states = states.push(*self);
                assert(outcomes(results) =~= before.push(told(r)));
                assert(outcomes(results).drop_last() =~= before);
                assert forall|j: int| 0 <= j < results.len() implies stmt_checked(
                    check_stmt,
                    check_expr,
                    block,
                    expected,
                    j,
                    states[j],
                    states[j + 1],
                    #[trigger] results[j],
                ) by {
                    if j < i {
                        assert(stmts_checked(
                            check_stmt,
                            check_expr,
                            block,
                            expected,
                            states.drop_last(),
                            results.drop_last(),
                        ));
                    }
                }
            }
            match r {
                Ok(t) => {
                    last = t;
                },
                Err(e) => {
                    proof {
                        assert(results.last() == Err::<Type, String>(e));
                        assert forall|j: int| 0 <= j < results.len() - 1 implies (
                        #[trigger] results[j]) is Ok by {
                            assert(results.drop_last()[j] is Ok);
                        }
                        assert(stmts_checked(
                            check_stmt,
                            check_expr,
                            block,
                            expected,
                            states,
                            results,
                        ));
                    }
                    return Err(e);
                },
            }
            i = i + 1;
        }
        Ok(last)
    }
}

} // verus!
