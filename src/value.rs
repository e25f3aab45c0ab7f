use vstd::prelude::*;
use vstd::string::*;
use crate::text::{decimal, push_decimal};

verus! {

/// A literal value of the component language.
#[derive(Debug)]
pub enum Value {
    String(String),
    Number(i64),
    Variable(String),
}

/// Mathematical model of a `Value`.
pub enum ValueV {
    Str(Seq<char>),
    Num(int),
    Var(Seq<char>),
}

impl View for Value {
    type V = ValueV;

    open spec fn view(&self) -> ValueV {
        match self {
            Value::String(s) => ValueV::Str(s@),
            Value::Number(n) => ValueV::Num(*n as int),
            Value::Variable(s) => ValueV::Var(s@),
        }
    }
}

/// Binary operators of the expression language.
#[derive(Clone, Copy, PartialEq, Eq, Structural, Debug)]
pub enum Operation {
    Add,
    Substract,
}

/// Text of an operator.
pub open spec fn operation_text(op: Operation) -> Seq<char> {
    match op {
        Operation::Add => "+"@,
        Operation::Substract => "-"@,
    }
}

/// An expression embedded in a template.
#[derive(Debug)]
pub enum Expression {
    Literal(Value),
    FormatString(Vec<Expression>),
    Variable(String),
    Operation(Box<Expression>, Operation, Box<Expression>),
}

/// Mathematical model of an `Expression`.
pub enum ExprV {
    Literal(ValueV),
    FormatString(Seq<ExprV>),
    Variable(Seq<char>),
    Operation(Box<ExprV>, Operation, Box<ExprV>),
}

pub open spec fn expr_view(e: Expression) -> ExprV
    decreases e,
{
    match e {
        Expression::Literal(v) => ExprV::Literal(v@),
        Expression::FormatString(parts) => ExprV::FormatString(exprs_view(parts@)),
        Expression::Variable(n) => ExprV::Variable(n@),
        Expression::Operation(l, op, r) => ExprV::Operation(
            Box::new(expr_view(*l)),
            op,
            Box::new(expr_view(*r)),
        ),
    }
}

pub open spec fn exprs_view(v: Seq<Expression>) -> Seq<ExprV>
    decreases v,
{
    if v.len() == 0 {
        Seq::empty()
    } else {
        exprs_view(v.drop_last()).push(expr_view(v.last()))
    }
}

impl View for Expression {
    type V = ExprV;

    open spec fn view(&self) -> ExprV {
        expr_view(*self)
    }
}

pub proof fn lemma_exprs_view(v: Seq<Expression>)
    ensures
        exprs_view(v).len() == v.len(),
        forall|i: int| 0 <= i < v.len() ==> #[trigger] exprs_view(v)[i] == v[i]@,
    decreases v.len(),
{
    if v.len() > 0 {
        lemma_exprs_view(v.drop_last());
        assert forall|i: int| 0 <= i < v.len() implies #[trigger] exprs_view(v)[i] == v[i]@ by {
            if i < v.len() - 1 {
                assert(v.drop_last()[i] == v[i]);
            }
        }
    }
}

pub proof fn lemma_exprs_view_push(v: Seq<Expression>, x: Expression)
    ensures
        exprs_view(v.push(x)) == exprs_view(v).push(x@),
{
    assert(v.push(x).drop_last() == v);
}

/// Why an expression could not be evaluated.
#[derive(Debug)]
pub enum EvalError {
    /// A variable name that the context does not hold.
    UnresolvedVariable(String),
    /// Operations have no evaluation.
    UnsupportedOperation,
}

pub enum EvalErrorV {
    UnresolvedVariable(Seq<char>),
    UnsupportedOperation,
}

impl View for EvalError {
    type V = EvalErrorV;

    open spec fn view(&self) -> EvalErrorV {
        match self {
            EvalError::UnresolvedVariable(n) => EvalErrorV::UnresolvedVariable(n@),
            EvalError::UnsupportedOperation => EvalErrorV::UnsupportedOperation,
        }
    }
}

/// Model of a variable context: name and value pairs, searched from the front.
pub open spec fn context_view(c: Seq<(String, Value)>) -> Seq<(Seq<char>, ValueV)> {
    c.map_values(|p: (String, Value)| (p.0@, p.1@))
}

/// The value bound to `name`: the first entry that has it.
pub open spec fn lookup(ctx: Seq<(Seq<char>, ValueV)>, name: Seq<char>) -> Option<ValueV>
    decreases ctx.len(),
{
    if ctx.len() == 0 {
        None
    } else if ctx[0].0 == name {
        Some(ctx[0].1)
    } else {
        lookup(ctx.drop_first(), name)
    }
}

/// Display text of a value.
pub open spec fn value_text(v: ValueV) -> Seq<char> {
    match v {
        ValueV::Str(s) => s,
        ValueV::Num(n) => decimal(n),
        ValueV::Var(n) => n,
    }
}

/// Script text of a value: a quoted string, a number, or a field of the instance.
pub open spec fn value_js(v: ValueV) -> Seq<char> {
    match v {
        ValueV::Str(s) => "\""@ + s + "\""@,
        ValueV::Num(n) => decimal(n),
        ValueV::Var(n) => "this."@ + n,
    }
}

/// The text of a variable, resolved in the context.
pub open spec fn resolve(ctx: Seq<(Seq<char>, ValueV)>, name: Seq<char>) -> Result<Seq<char>, EvalErrorV> {
    match lookup(ctx, name) {
        Some(v) => Ok(value_text(v)),
        None => Err(EvalErrorV::UnresolvedVariable(name)),
    }
}

/// What an expression evaluates to in a context.
pub open spec fn eval(e: ExprV, ctx: Seq<(Seq<char>, ValueV)>) -> Result<Seq<char>, EvalErrorV>
    decreases e,
{
    match e {
        ExprV::Literal(ValueV::Var(n)) => resolve(ctx, n),
        ExprV::Literal(v) => Ok(value_text(v)),
        ExprV::Variable(n) => resolve(ctx, n),
        ExprV::FormatString(parts) => eval_parts(parts, ctx),
        ExprV::Operation(..) => Err(EvalErrorV::UnsupportedOperation),
    }
}

/// The parts evaluated in order and concatenated; the first failure wins.
pub open spec fn eval_parts(parts: Seq<ExprV>, ctx: Seq<(Seq<char>, ValueV)>) -> Result<Seq<char>, EvalErrorV>
    decreases parts,
{
    if parts.len() == 0 {
        Ok(Seq::empty())
    } else {
        match eval_parts(parts.drop_last(), ctx) {
            Err(err) => Err(err),
            Ok(front) => match eval(parts.last(), ctx) {
                Err(err) => Err(err),
                Ok(back) => Ok(front + back),
            },
        }
    }
}

/// Once a prefix of the parts fails, every longer prefix fails the same way.
pub proof fn lemma_eval_parts_failure_stays(parts: Seq<ExprV>, ctx: Seq<(Seq<char>, ValueV)>, j: int, k: int)
    requires
        0 <= j <= k <= parts.len(),
        eval_parts(parts.take(j), ctx) is Err,
    ensures
        eval_parts(parts.take(k), ctx) == eval_parts(parts.take(j), ctx),
    decreases k - j,
{
    if k > j {
        lemma_eval_parts_failure_stays(parts, ctx, j, k - 1);
        assert(parts.take(k).drop_last() == parts.take(k - 1));
    }
}

/// Script text of an expression.
pub open spec fn js(e: ExprV) -> Seq<char>
    decreases e,
{
    match e {
        ExprV::Literal(v) => value_js(v),
        ExprV::Variable(n) => "this."@ + n,
        ExprV::Operation(l, op, r) => js(*l) + " "@ + operation_text(op) + " "@ + js(*r),
        ExprV::FormatString(parts) => "`"@ + js_parts(parts) + "`"@,
    }
}

/// Template-literal text of format-string parts: constant text stands as it is,
/// anything else is interpolated.
pub open spec fn js_parts(parts: Seq<ExprV>) -> Seq<char>
    decreases parts,
{
    if parts.len() == 0 {
        Seq::empty()
    } else {
        js_parts(parts.drop_last()) + match parts.last() {
            ExprV::Literal(ValueV::Str(s)) => s,
            ExprV::Literal(ValueV::Num(n)) => decimal(n),
            _ => "${"@ + js(parts.last()) + "}"@,
        }
    }
}

impl Operation {
    /// The operator's symbol.
    pub fn symbol(&self) -> (r: &'static str)
        ensures
            r@ == operation_text(*self),
    {
        match self {
            Operation::Add => "+",
            Operation::Substract => "-",
        }
    }
}

impl Value {
    /// A copy of this value.
    pub fn copy(&self) -> (r: Value)
        ensures
            r@ == self@,
    {
        match self {
            Value::String(s) => Value::String(s.clone()),
            Value::Number(n) => Value::Number(*n),
            Value::Variable(s) => Value::Variable(s.clone()),
        }
    }

    /// Appends the display text of this value.
    pub fn push_text(&self, out: &mut String)
        ensures
            final(out)@ == old(out)@ + value_text(self@),
    {
        match self {
            Value::String(s) => out.append(s.as_str()),
            Value::Number(n) => push_decimal(out, *n),
            Value::Variable(s) => out.append(s.as_str()),
        }
    }

    /// Display text of this value.
    pub fn text(&self) -> (r: String)
        ensures
            r@ == value_text(self@),
    {
        let mut out = String::new();
        self.push_text(&mut out);
        out
    }

    /// Appends the script text of this value.
    pub fn push_js(&self, out: &mut String)
        ensures
            final(out)@ == old(out)@ + value_js(self@),
    {
        match self {
            Value::String(s) => {
                out.append("\"");
                out.append(s.as_str());
                out.append("\"");
            },
            Value::Number(n) => push_decimal(out, *n),
            Value::Variable(s) => {
                out.append("this.");
                out.append(s.as_str());
            },
        }
    }

    /// Script text of this value.
    pub fn js(&self) -> (r: String)
        ensures
            r@ == value_js(self@),
    {
        let mut out = String::new();
        self.push_js(&mut out);
        out
    }
}

/// Looks a variable up in a context: the first entry with that name.
pub fn find_variable<'a>(ctx: &'a Vec<(String, Value)>, name: &String) -> (r: Option<&'a Value>)
    ensures
        match r {
            Some(v) => lookup(context_view(ctx@), name@) == Some(v@),
            None => lookup(context_view(ctx@), name@) is None,
        },
{
    let mut i: usize = 0;
    proof {
        assert(context_view(ctx@).skip(0) == context_view(ctx@));
    }
    while i < ctx.len()
        invariant
            0 <= i <= ctx.len(),
            lookup(context_view(ctx@), name@) == lookup(context_view(ctx@).skip(i as int), name@),
        decreases ctx.len() - i,
    {
        proof {
            let rest = context_view(ctx@).skip(i as int);
            assert(rest.drop_first() == context_view(ctx@).skip(i as int + 1));
        }
        if ctx[i].0 == *name {
            return Some(&ctx[i].1);
        }
        i = i + 1;
    }
    None
}

/// Appends the text of a variable resolved in the context.
fn push_resolved(ctx: &Vec<(String, Value)>, name: &String, out: &mut String) -> (r: Result<(), EvalError>)
    ensures
        match resolve(context_view(ctx@), name@) {
            Ok(t) => r is Ok && final(out)@ == old(out)@ + t,
            Err(err) => r matches Err(e) && e@ == err,
        },
{
    match find_variable(ctx, name) {
        Some(v) => {
            v.push_text(out);
            Ok(())
        },
        None => Err(EvalError::UnresolvedVariable(name.clone())),
    }
}

impl Expression {
    /// A copy of this expression.
    pub fn copy(&self) -> (r: Expression)
        ensures
            r@ == self@,
        decreases self,
    {
        match self {
            Expression::Literal(v) => Expression::Literal(v.copy()),
            Expression::Variable(n) => Expression::Variable(n.clone()),
            Expression::Operation(l, op, r) => Expression::Operation(
                Box::new((**l).copy()),
                *op,
                Box::new((**r).copy()),
            ),
            Expression::FormatString(parts) => {
                proof {
                    assert forall|k: int| 0 <= k < parts@.len() implies decreases_to!(*self => #[trigger] parts@[k]) by {
                        assert(decreases_to!(*self => (*self)->FormatString_0));
                        assert(decreases_to!(*parts => parts@));
                        assert(decreases_to!(parts@ => parts@[k]));
                    }
                }
                let mut out: Vec<Expression> = Vec::new();
                let mut i: usize = 0;
                while i < parts.len()
                    invariant
                        0 <= i <= parts.len(),
                        self@ == ExprV::FormatString(exprs_view(parts@)),
                        forall|k: int| 0 <= k < parts@.len() ==> decreases_to!(*self => #[trigger] parts@[k]),
                        out@.len() == i,
                        forall|k: int| 0 <= k < i ==> #[trigger] out@[k]@ == parts@[k]@,
                    decreases parts.len() - i,
                {
                    let c = parts[i].copy();
                    out.push(c);
                    i = i + 1;
                }
                proof {
                    lemma_exprs_view(parts@);
                    lemma_exprs_view(out@);
                    assert(exprs_view(out@) == exprs_view(parts@));
                }
                Expression::FormatString(out)
            },
        }
    }

    /// Appends the value of this expression in the context, or fails on the first
    /// variable the context lacks or on an operation.
    pub fn push_evaluation(&self, ctx: &Vec<(String, Value)>, out: &mut String) -> (r: Result<(), EvalError>)
        ensures
            match eval(self@, context_view(ctx@)) {
                Ok(t) => r is Ok && final(out)@ == old(out)@ + t,
                Err(err) => r matches Err(e) && e@ == err,
            },
        decreases self,
    {
        match self {
            Expression::Literal(Value::Variable(n)) => push_resolved(ctx, n, out),
            Expression::Literal(v) => {
                v.push_text(out);
                Ok(())
            },
            Expression::Variable(n) => push_resolved(ctx, n, out),
            Expression::Operation(..) => Err(EvalError::UnsupportedOperation),
            Expression::FormatString(parts) => {
                proof {
                    assert forall|k: int| 0 <= k < parts@.len() implies decreases_to!(*self => #[trigger] parts@[k]) by {
                        assert(decreases_to!(*self => (*self)->FormatString_0));
                        assert(decreases_to!(*parts => parts@));
                        assert(decreases_to!(parts@ => parts@[k]));
                    }
                    lemma_exprs_view(parts@);
                }
                let ghost vs = exprs_view(parts@);
                let mut i: usize = 0;
                while i < parts.len()
                    invariant
                        0 <= i <= parts.len(),
                        vs == exprs_view(parts@),
                        vs.len() == parts@.len(),
                        forall|k: int| 0 <= k < parts@.len() ==> #[trigger] vs[k] == parts@[k]@,
                        self@ == ExprV::FormatString(vs),
                        forall|k: int| 0 <= k < parts@.len() ==> decreases_to!(*self => #[trigger] parts@[k]),
                        eval_parts(vs.take(i as int), context_view(ctx@)) matches Ok(t) && out@ == old(out)@ + t,
                    decreases parts.len() - i,
                {
                    let ghost before = out@;
                    proof {
                        assert(vs.take(i as int + 1).drop_last() == vs.take(i as int));
                        assert(vs.take(i as int + 1).last() == parts@[i as int]@);
                    }
                    match parts[i].push_evaluation(ctx, out) {
                        Ok(()) => {},
                        Err(e) => {
                            proof {
                                lemma_eval_parts_failure_stays(vs, context_view(ctx@), i as int + 1, vs.len() as int);
                                assert(vs.take(vs.len() as int) == vs);
                            }
                            return Err(e);
                        },
                    }
                    i = i + 1;
                }
                proof {
                    assert(vs.take(parts.len() as int) == vs);
                }
                Ok(())
            },
        }
    }

    /// The value of this expression in the context.
    pub fn evaluate(&self, ctx: &Vec<(String, Value)>) -> (r: Result<String, EvalError>)
        ensures
            match eval(self@, context_view(ctx@)) {
                Ok(t) => r matches Ok(s) && s@ == t,
                Err(err) => r matches Err(e) && e@ == err,
            },
    {
        let mut out = String::new();
        match self.push_evaluation(ctx, &mut out) {
            Ok(()) => Ok(out),
            Err(e) => Err(e),
        }
    }

    /// Appends the script text of this expression.
    pub fn push_js(&self, out: &mut String)
        ensures
            final(out)@ == old(out)@ + js(self@),
        decreases self,
    {
        match self {
            Expression::Literal(v) => v.push_js(out),
            Expression::Variable(n) => {
                out.append("this.");
                out.append(n.as_str());
            },
            Expression::Operation(l, op, r) => {
                (**l).push_js(out);
                out.append(" ");
                out.append(op.symbol());
                out.append(" ");
                (**r).push_js(out);
            },
            Expression::FormatString(parts) => {
                proof {
                    assert forall|k: int| 0 <= k < parts@.len() implies decreases_to!(*self => #[trigger] parts@[k]) by {
                        assert(decreases_to!(*self => (*self)->FormatString_0));
                        assert(decreases_to!(*parts => parts@));
                        assert(decreases_to!(parts@ => parts@[k]));
                    }
                    lemma_exprs_view(parts@);
                }
                let ghost vs = exprs_view(parts@);
                out.append("`");
                let ghost start = out@;
                let mut i: usize = 0;
                while i < parts.len()
                    invariant
                        0 <= i <= parts.len(),
                        vs == exprs_view(parts@),
                        vs.len() == parts@.len(),
                        forall|k: int| 0 <= k < parts@.len() ==> #[trigger] vs[k] == parts@[k]@,
                        self@ == ExprV::FormatString(vs),
                        forall|k: int| 0 <= k < parts@.len() ==> decreases_to!(*self => #[trigger] parts@[k]),
                        out@ == start + js_parts(vs.take(i as int)),
                    decreases parts.len() - i,
                {
                    proof {
                        assert(vs.take(i as int + 1).drop_last() == vs.take(i as int));
                        assert(vs.take(i as int + 1).last() == parts@[i as int]@);
                    }
                    match &parts[i] {
                        Expression::Literal(Value::String(s)) => out.append(s.as_str()),
                        Expression::Literal(Value::Number(n)) => push_decimal(out, *n),
                        p => {
                            out.append("${");
                            p.push_js(out);
                            out.append("}");
                        },
                    }
                    i = i + 1;
                }
                proof {
                    assert(vs.take(parts.len() as int) == vs);
                }
                out.append("`");
            },
        }
    }

    /// Script text of this expression.
    pub fn js(&self) -> (r: String)
        ensures
            r@ == js(self@),
    {
        let mut out = String::new();
        self.push_js(&mut out);
        out
    }
}

} // verus!
