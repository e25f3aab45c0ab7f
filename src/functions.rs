use vstd::prelude::*;
use vstd::string::*;
use crate::text::{join, lemma_join_push};
use crate::value::{js, Expression};

verus! {

/// A statement of an event handler.
#[derive(Debug)]
pub enum Statement {
    /// Assigns the value of the expression to the named state entry.
    Assignment(String, Expression),
}

/// Script text of a statement: an assignment through the instance's accessor.
pub open spec fn statement_js(s: Statement) -> Seq<char> {
    match s {
        Statement::Assignment(key, e) => "this."@ + key@ + " = "@ + js(e@) + ";"@,
    }
}

/// An event handler: statements run in order.
#[derive(Debug)]
pub struct Function {
    pub statements: Vec<Statement>,
}

/// Script text of each statement.
pub open spec fn statements_js(stmts: Seq<Statement>) -> Seq<Seq<char>> {
    Seq::new(stmts.len(), |i: int| statement_js(stmts[i]))
}

/// Script text of a handler: an arrow function whose body holds one statement per line.
pub open spec fn function_js(f: Function) -> Seq<char> {
    "() => {"@ + join(statements_js(f.statements@), "\n"@) + "}"@
}

/// Two statement lists that stand for the same code.
pub open spec fn same_statements(a: Seq<Statement>, b: Seq<Statement>) -> bool {
    a.len() == b.len() && forall|i: int| 0 <= i < a.len() ==> #[trigger] statement_js(a[i]) == statement_js(b[i])
}

impl Statement {
    /// A copy of this statement.
    pub fn copy(&self) -> (r: Statement)
        ensures
            statement_js(r) == statement_js(*self),
            r matches Statement::Assignment(k, e) && self matches Statement::Assignment(k0, e0) && k@ == k0@ && e@ == e0@,
    {
        match self {
            Statement::Assignment(k, e) => Statement::Assignment(k.clone(), e.copy()),
        }
    }

    /// Script text of this statement.
    pub fn js(&self) -> (r: String)
        ensures
            r@ == statement_js(*self),
    {
        match self {
            Statement::Assignment(key, e) => {
                let mut out = String::new();
                out.append("this.");
                out.append(key.as_str());
                out.append(" = ");
                e.push_js(&mut out);
                out.append(";");
                out
            },
        }
    }
}

impl Function {
    pub fn new(statements: Vec<Statement>) -> (r: Function)
        ensures
            r.statements == statements,
    {
        Function { statements }
    }

    /// A copy of this handler.
    pub fn copy(&self) -> (r: Function)
        ensures
            same_statements(r.statements@, self.statements@),
            function_js(r) == function_js(*self),
    {
        let mut out: Vec<Statement> = Vec::new();
        let mut i: usize = 0;
        while i < self.statements.len()
            invariant
                0 <= i <= self.statements.len(),
                out@.len() == i,
                forall|k: int| 0 <= k < i ==> #[trigger] statement_js(out@[k]) == statement_js(self.statements@[k]),
            decreases self.statements.len() - i,
        {
            out.push(self.statements[i].copy());
            i = i + 1;
        }
        let r = Function { statements: out };
        proof {
            assert(statements_js(r.statements@) == statements_js(self.statements@));
        }
        r
    }

    /// Script text of this handler.
    pub fn js(&self) -> (r: String)
        ensures
            r@ == function_js(*self),
    {
        let ghost parts = statements_js(self.statements@);
        let mut out = String::new();
        out.append("() => {");
        let ghost start = out@;
        let mut i: usize = 0;
        while i < self.statements.len()
            invariant
                0 <= i <= self.statements.len(),
                parts == statements_js(self.statements@),
                out@ == start + join(parts.take(i as int), "\n"@),
            decreases self.statements.len() - i,
        {
            proof {
                lemma_join_push(parts.take(i as int), "\n"@, parts[i as int]);
                assert(parts.take(i as int).push(parts[i as int]) == parts.take(i as int + 1));
            }
            if i > 0 {
                out.append("\n");
            }
            let s = self.statements[i].js();
            out.append(s.as_str());
            i = i + 1;
        }
        proof {
            assert(parts.take(self.statements.len() as int) == parts);
        }
        out.append("}");
        out
    }
}

} // verus!
