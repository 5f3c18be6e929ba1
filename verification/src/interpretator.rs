//! The evaluator's surroundings: scopes (lexically chained environments),
//! runtime error messages, the big-step semantics that `Node::evaluate` is
//! proved against, and the interpreter front door that runs one unit of
//! source text.

use vstd::prelude::*;

use crate::lexer::{tokenize_spec, LexerError};
use crate::nodes::{clone_pairs, pairs_view, FunctionV, NodeV, Value, ValueV};
use crate::parser::{parse_program_spec, Parser, ParserError};

verus! {

// ------------------------------------------------------------------
// Interpreter errors
// ------------------------------------------------------------------

/// A failure reported by the interpreter proper: a cast between
/// incompatible value kinds, or a runtime evaluation failure. Both carry a
/// human-readable message.
#[derive(Debug)]
pub enum InterpretatorError {
    CastError(String),
    EvaluationError(String),
}

/// The mathematical model of an interpreter error.
pub enum InterpretatorErrorV {
    CastError(Seq<char>),
    EvaluationError(Seq<char>),
}

impl View for InterpretatorError {
    type V = InterpretatorErrorV;

    open spec fn view(&self) -> InterpretatorErrorV {
        match self {
            InterpretatorError::CastError(s) => InterpretatorErrorV::CastError(s@),
            InterpretatorError::EvaluationError(s) => InterpretatorErrorV::EvaluationError(s@),
        }
    }
}

/// The message string an interpreter error renders to.
pub open spec fn interpretator_error_text(e: InterpretatorErrorV) -> Seq<char> {
    match e {
        InterpretatorErrorV::CastError(s) => "CastError: "@ + s,
        InterpretatorErrorV::EvaluationError(s) => "EvaluationError: "@ + s,
    }
}

impl InterpretatorError {
    /// A human-readable rendering of the error.
    pub fn message(&self) -> (r: String)
        ensures
            r@ == interpretator_error_text(self@),
    {
        match self {
            InterpretatorError::CastError(s) => String::from_str("CastError: ").concat(
                s.as_str(),
            ),
            InterpretatorError::EvaluationError(s) => String::from_str(
                "EvaluationError: ",
            ).concat(s.as_str()),
        }
    }
}

impl Clone for InterpretatorError {
    fn clone(&self) -> (res: InterpretatorError)
        ensures
            res@ == self@,
    {
        match self {
            InterpretatorError::CastError(s) => InterpretatorError::CastError(s.clone()),
            InterpretatorError::EvaluationError(s) => InterpretatorError::EvaluationError(
                s.clone(),
            ),
        }
    }
}

impl PartialEq for InterpretatorError {
    fn eq(&self, other: &InterpretatorError) -> (r: bool) {
        match (self, other) {
            (InterpretatorError::CastError(a), InterpretatorError::CastError(b)) => *a == *b,
            (
                InterpretatorError::EvaluationError(a),
                InterpretatorError::EvaluationError(b),
            ) => *a == *b,
            _ => false,
        }
    }
}

impl vstd::std_specs::cmp::PartialEqSpecImpl for InterpretatorError {
    open spec fn obeys_eq_spec() -> bool {
        true
    }

    open spec fn eq_spec(&self, other: &InterpretatorError) -> bool {
        self@ == other@
    }
}

/// The one error channel of a `run` call, distinguishing character-level,
/// token-level and evaluation failures.
#[derive(Debug)]
pub enum RunError {
    Lexer(LexerError),
    Parser(ParserError),
    Interpretator(InterpretatorError),
}

// ------------------------------------------------------------------
// String helpers
// ------------------------------------------------------------------

/// Character-wise string equality.
pub fn str_eq(a: &str, b: &str) -> (r: bool)
    ensures
        r == (a@ == b@),
{
    let n = a.unicode_len();
    if n != b.unicode_len() {
        return false;
    }
    let mut i: usize = 0;
    while i < n
        invariant
            n == a@.len(),
            n == b@.len(),
            0 <= i <= n,
            forall|j: int| 0 <= j < i ==> a@[j] == b@[j],
        decreases n - i,
    {
        if a.get_char(i) != b.get_char(i) {
            return false;
        }
        i = i + 1;
    }
    proof {
        assert(a@ =~= b@);
    }
    true
}

/// The decimal spelling of a count, most significant digit first.
pub open spec fn dec_str(n: nat) -> Seq<char>
    decreases n,
{
    if n < 10 {
        seq!["0123456789"@[n as int]]
    } else {
        dec_str(n / 10).push("0123456789"@[(n % 10) as int])
    }
}

/// Build the decimal spelling of a count.
fn dec_of(n: u64) -> (s: String)
    ensures
        s@ == dec_str(n as nat),
    decreases n,
{
    let digits = "0123456789";
    proof {
        reveal_strlit("0123456789");
    }
    let d = (n % 10) as usize;
    let last = digits.substring_char(d, d + 1);
    proof {
        assert(last@ =~= seq!["0123456789"@[n as int % 10]]);
    }
    if n < 10 {
        String::from_str(last)
    } else {
        let s = dec_of(n / 10).concat(last);
        proof {
            assert(dec_str((n / 10) as nat) + last@ =~= dec_str(n as nat));
        }
        s
    }
}

// ------------------------------------------------------------------
// Runtime error messages
// ------------------------------------------------------------------

/// A runtime evaluation failure, as the model sees it. The executable
/// evaluator reports each as the corresponding message string.
pub enum EvalErrV {
    NotDefined(Seq<char>),
    NotAFunction(Seq<char>),
    ArityMismatch { name: Seq<char>, expected: nat, actual: nat },
    NativeError(Seq<char>),
    DepthLimit,
}

pub open spec fn msg_not_defined(name: Seq<char>) -> Seq<char> {
    name + " is not defined"@
}

pub open spec fn msg_not_a_function(name: Seq<char>) -> Seq<char> {
    name + " is not a function"@
}

pub open spec fn msg_arity_mismatch(name: Seq<char>, expected: nat, actual: nat) -> Seq<char> {
    "Function "@ + name + " takes "@ + dec_str(expected) + " arguments, but "@ + dec_str(actual)
        + " were given"@
}

pub open spec fn msg_depth_limit() -> Seq<char> {
    "evaluation depth limit exceeded"@
}

/// The message string that the evaluator reports for a runtime failure.
pub open spec fn eval_err_msg(e: EvalErrV) -> Seq<char> {
    match e {
        EvalErrV::NotDefined(name) => msg_not_defined(name),
        EvalErrV::NotAFunction(name) => msg_not_a_function(name),
        EvalErrV::ArityMismatch { name, expected, actual } => msg_arity_mismatch(
            name,
            expected,
            actual,
        ),
        EvalErrV::NativeError(m) => m,
        EvalErrV::DepthLimit => msg_depth_limit(),
    }
}

pub(crate) fn build_not_defined(name: &String) -> (s: String)
    ensures
        s@ == msg_not_defined(name@),
{
    name.clone().concat(" is not defined")
}

pub(crate) fn build_not_a_function(name: &String) -> (s: String)
    ensures
        s@ == msg_not_a_function(name@),
{
    name.clone().concat(" is not a function")
}

pub(crate) fn build_arity_mismatch(name: &String, expected: usize, actual: usize) -> (s: String)
    ensures
        s@ == msg_arity_mismatch(name@, expected as nat, actual as nat),
{
    String::from_str("Function ").concat(name.as_str()).concat(" takes ").concat(
        dec_of(expected as u64).as_str(),
    ).concat(" arguments, but ").concat(dec_of(actual as u64).as_str()).concat(" were given")
}

pub(crate) fn build_depth_limit() -> (s: String)
    ensures
        s@ == msg_depth_limit(),
{
    String::from_str("evaluation depth limit exceeded")
}

// ------------------------------------------------------------------
// Scopes
// ------------------------------------------------------------------

/// A mutable name-to-value mapping with an optional parent, forming the
/// lexical scope chain. Lookup walks the chain from the innermost scope
/// outward; `set` always writes into this scope, shadowing (never
/// mutating) any same-named binding of an ancestor.
pub struct Scope {
    pub variables: Vec<(String, Value)>,
    pub parent: Option<Box<Scope>>,
}

/// The model of a scope chain: a map per frame, linked to the parent.
pub struct ScopeV {
    pub vars: Map<Seq<char>, ValueV>,
    pub parent: Option<Box<ScopeV>>,
}

impl ScopeV {
    /// Chain lookup: the innermost binding wins.
    pub open spec fn lookup(self, name: Seq<char>) -> Option<ValueV>
        decreases self,
    {
        if self.vars.contains_key(name) {
            Some(self.vars[name])
        } else {
            match self.parent {
                Some(p) => (*p).lookup(name),
                None => None,
            }
        }
    }
}

/// The map described by a key-value sequence when the first occurrence of
/// a key wins.
pub open spec fn frame_map(pairs: Seq<(Seq<char>, ValueV)>) -> Map<Seq<char>, ValueV>
    decreases pairs.len(),
{
    if pairs.len() == 0 {
        Map::empty()
    } else {
        frame_map(pairs.skip(1)).insert(pairs[0].0, pairs[0].1)
    }
}

pub open spec fn scope_view(s: Scope) -> ScopeV
    decreases s,
{
    ScopeV {
        vars: frame_map(pairs_view(s.variables@)),
        parent: match s.parent {
            Some(b) => Some(Box::new(scope_view(*b))),
            None => None,
        },
    }
}

impl View for Scope {
    type V = ScopeV;

    open spec fn view(&self) -> ScopeV {
        scope_view(*self)
    }
}

/// A key with no occurrence at all is not in the frame map.
proof fn lemma_frame_map_absent(pairs: Seq<(Seq<char>, ValueV)>, name: Seq<char>)
    requires
        forall|j: int| 0 <= j < pairs.len() ==> pairs[j].0 != name,
    ensures
        !frame_map(pairs).contains_key(name),
    decreases pairs.len(),
{
    if pairs.len() > 0 {
        assert(forall|j: int| 0 <= j < pairs.len() - 1 ==> pairs.skip(1)[j] == pairs[j + 1]);
        lemma_frame_map_absent(pairs.skip(1), name);
    }
}

/// The first occurrence of a key gives its value in the frame map.
proof fn lemma_frame_map_at(pairs: Seq<(Seq<char>, ValueV)>, k: int, name: Seq<char>)
    requires
        0 <= k < pairs.len(),
        pairs[k].0 == name,
        forall|j: int| 0 <= j < k ==> pairs[j].0 != name,
    ensures
        frame_map(pairs).contains_key(name),
        frame_map(pairs)[name] == pairs[k].1,
    decreases pairs.len(),
{
    if k > 0 {
        assert(forall|j: int| 0 <= j < pairs.len() - 1 ==> pairs.skip(1)[j] == pairs[j + 1]);
        assert(pairs.skip(1)[k - 1] == pairs[k]);
        lemma_frame_map_at(pairs.skip(1), k - 1, name);
    }
}

/// Replacing the first binding of a key gives the map with that key
/// re-inserted.
proof fn lemma_frame_map_update(
    pairs: Seq<(Seq<char>, ValueV)>,
    k: int,
    name: Seq<char>,
    value: ValueV,
)
    requires
        0 <= k < pairs.len(),
        pairs[k].0 == name,
        forall|j: int| 0 <= j < k ==> pairs[j].0 != name,
    ensures
        frame_map(pairs.update(k, (name, value))) == frame_map(pairs).insert(name, value),
    decreases pairs.len(),
{
    let updated = pairs.update(k, (name, value));
    if k == 0 {
        assert(updated.skip(1) =~= pairs.skip(1));
        assert(frame_map(updated) == frame_map(pairs.skip(1)).insert(name, value));
        assert(frame_map(pairs.skip(1)).insert(name, value) =~= frame_map(pairs.skip(1)).insert(
            pairs[0].0,
            pairs[0].1,
        ).insert(name, value));
    } else {
        assert(updated.skip(1) =~= pairs.skip(1).update(k - 1, (name, value)));
        assert(forall|j: int| 0 <= j < k - 1 ==> pairs.skip(1)[j] == pairs[j + 1]);
        assert(pairs.skip(1)[k - 1] == pairs[k]);
        lemma_frame_map_update(pairs.skip(1), k - 1, name, value);
        assert(frame_map(updated) == frame_map(pairs.skip(1)).insert(name, value).insert(
            pairs[0].0,
            pairs[0].1,
        ));
        assert(pairs[0].0 != name);
        assert(frame_map(pairs.skip(1)).insert(name, value).insert(pairs[0].0, pairs[0].1)
            =~= frame_map(pairs.skip(1)).insert(pairs[0].0, pairs[0].1).insert(name, value));
    }
}

/// Appending a binding for a key with no existing occurrence gives the map
/// with that key inserted.
proof fn lemma_frame_map_push(pairs: Seq<(Seq<char>, ValueV)>, name: Seq<char>, value: ValueV)
    requires
        forall|j: int| 0 <= j < pairs.len() ==> pairs[j].0 != name,
    ensures
        frame_map(pairs.push((name, value))) == frame_map(pairs).insert(name, value),
    decreases pairs.len(),
{
    let pushed = pairs.push((name, value));
    if pairs.len() == 0 {
        assert(pushed.skip(1) =~= Seq::<(Seq<char>, ValueV)>::empty());
        assert(frame_map(pushed.skip(1)) =~= frame_map(pairs));
        assert(pushed[0] == (name, value));
        assert(frame_map(pushed) =~= frame_map(pairs).insert(name, value));
    } else {
        assert(pushed.skip(1) =~= pairs.skip(1).push((name, value)));
        assert(forall|j: int| 0 <= j < pairs.len() - 1 ==> pairs.skip(1)[j] == pairs[j + 1]);
        lemma_frame_map_push(pairs.skip(1), name, value);
        assert(pushed[0] == pairs[0]);
        assert(frame_map(pushed) == frame_map(pairs.skip(1)).insert(name, value).insert(
            pairs[0].0,
            pairs[0].1,
        ));
        assert(pairs[0].0 != name);
        assert(frame_map(pairs.skip(1)).insert(name, value).insert(pairs[0].0, pairs[0].1)
            =~= frame_map(pairs.skip(1)).insert(pairs[0].0, pairs[0].1).insert(name, value));
    }
}

impl Clone for Scope {
    /// A deep copy of the whole chain, with the same view.
    fn clone(&self) -> (res: Scope)
        ensures
            res@ == self@,
        decreases *self,
    {
        Scope {
            variables: clone_pairs(&self.variables),
            parent: match &self.parent {
                Some(b) => Some(Box::new((**b).clone())),
                None => None,
            },
        }
    }
}

impl Scope {
    /// Build a scope; with a parent, the chain below it is copied into the
    /// new scope, so the caller's parent scope is never aliased or altered
    /// through the child.
    pub fn new(parent: Option<&Scope>) -> (s: Scope)
        ensures
            s@.vars == Map::<Seq<char>, ValueV>::empty(),
            match parent {
                Some(p) => s@.parent == Some(Box::new(p@)),
                None => s@.parent is None,
            },
    {
        let parent_scope = match parent {
            Some(s) => Some(Box::new(s.clone())),
            None => None,
        };
        proof {
            assert(pairs_view(Seq::<(String, Value)>::empty()) =~= Seq::<(
                Seq<char>,
                ValueV,
            )>::empty());
        }
        Scope { variables: Vec::new(), parent: parent_scope }
    }

    /// Chain lookup: the first match walking outward from this scope.
    pub fn get(&self, name: &str) -> (r: Option<&Value>)
        ensures
            match r {
                Some(v) => self@.lookup(name@) == Some(v@),
                None => self@.lookup(name@) is None,
            },
        decreases *self,
    {
        let mut i: usize = 0;
        while i < self.variables.len()
            invariant
                0 <= i <= self.variables@.len(),
                forall|j: int| 0 <= j < i ==> pairs_view(self.variables@)[j].0 != name@,
            decreases self.variables@.len() - i,
        {
            proof {
                crate::nodes::lemma_pairs_view_is_map(self.variables@);
            }
            if str_eq(self.variables[i].0.as_str(), name) {
                proof {
                    assert(pairs_view(self.variables@)[i as int].0 == name@);
                    lemma_frame_map_at(pairs_view(self.variables@), i as int, name@);
                }
                return Some(&self.variables[i].1);
            }
            i = i + 1;
        }
        proof {
            crate::nodes::lemma_pairs_view_is_map(self.variables@);
            lemma_frame_map_absent(pairs_view(self.variables@), name@);
        }
        match &self.parent {
            Some(p) => p.get(name),
            None => None,
        }
    }

    /// Bind a name in this scope: replace its first binding here, or add
    /// one. The parent chain is untouched, so an ancestor's same-named
    /// binding is shadowed, never altered.
    pub fn set(&mut self, name: String, value: Value)
        ensures
            final(self)@.vars == old(self)@.vars.insert(name@, value@),
            final(self)@.parent == old(self)@.parent,
    {
        let mut i: usize = 0;
        while i < self.variables.len()
            invariant
                0 <= i <= self.variables@.len(),
                forall|j: int| 0 <= j < i ==> pairs_view(self.variables@)[j].0 != name@,
                self.variables@ == old(self).variables@,
                self.parent == old(self).parent,
            decreases self.variables@.len() - i,
        {
            proof {
                crate::nodes::lemma_pairs_view_is_map(self.variables@);
            }
            if str_eq(self.variables[i].0.as_str(), name.as_str()) {
                let ghost prev = self.variables@;
                let ghost nv = name@;
                let ghost vv = value@;
                self.variables.set(i, (name, value));
                proof {
                    crate::nodes::lemma_pairs_view_is_map(prev);
                    crate::nodes::lemma_pairs_view_is_map(self.variables@);
                    assert(pairs_view(self.variables@) =~= pairs_view(prev).update(
                        i as int,
                        (nv, vv),
                    ));
                    lemma_frame_map_update(pairs_view(prev), i as int, nv, vv);
                }
                return ;
            }
            i = i + 1;
        }
        let ghost prev = self.variables@;
        let ghost nv = name@;
        let ghost vv = value@;
        self.variables.push((name, value));
        proof {
            crate::nodes::lemma_pairs_view_is_map(prev);
            crate::nodes::lemma_pairs_view_is_map(self.variables@);
            assert(pairs_view(self.variables@) =~= pairs_view(prev).push((nv, vv)));
            lemma_frame_map_push(pairs_view(prev), nv, vv);
        }
    }
}

// ------------------------------------------------------------------
// The evaluator's big-step semantics
// ------------------------------------------------------------------

/// Maximum depth of nested user-defined function calls; past it the
/// evaluator reports a depth error instead of exhausting the host stack.
pub const MAX_CALL_DEPTH: u64 = 256;

/// The outcome of evaluating a node, as the model sees it. `Host` marks a
/// run that reached a host callback: its outcome is outside the model, and
/// nothing further is determined about that run.
pub enum EvalOut {
    Val(ValueV),
    Fail(EvalErrV),
    Host,
}

/// The outcome of evaluating a sequence of argument or element nodes, left
/// to right: all their values, or the first failure.
pub enum ArgsOut {
    Vals(Seq<ValueV>),
    Fail(EvalErrV),
    Host,
}

/// The outcome of forcing the stored values of a table.
pub enum TableOut {
    Pairs(Seq<(Seq<char>, ValueV)>),
    Fail(EvalErrV),
    Host,
}

/// The declared parameter names of a callable; their count is its arity.
pub open spec fn function_params(f: FunctionV) -> Seq<Seq<char>> {
    match f {
        FunctionV::Native(nf) => nf.args,
        FunctionV::UserDefined(u) => u.args,
    }
}

/// The parameter frame of a call: the i-th evaluated argument bound to the
/// i-th parameter name; of a repeated parameter name the last binding
/// wins.
pub open spec fn bind_args(params: Seq<Seq<char>>, vals: Seq<ValueV>) -> Map<Seq<char>, ValueV>
    decreases params.len(),
{
    if params.len() == 0 || vals.len() == 0 {
        Map::empty()
    } else {
        bind_args(params.drop_last(), vals.drop_last()).insert(params.last(), vals.last())
    }
}

/// One node evaluated against a scope chain, with `fuel` user-defined
/// calls of depth left.
pub open spec fn eval_node(fuel: nat, n: NodeV, env: ScopeV) -> EvalOut
    decreases fuel, n,
{
    match n {
        NodeV::Atom(v) => eval_value(fuel, v, env),
        NodeV::Variable(name) => match env.lookup(name) {
            Some(v) => EvalOut::Val(v),
            None => EvalOut::Fail(EvalErrV::NotDefined(name)),
        },
        NodeV::Program(nodes) => eval_sequence(fuel, nodes, env, ValueV::Null),
        NodeV::EOF => EvalOut::Val(ValueV::Null),
        NodeV::FunctionCall(name, args) => match env.lookup(name) {
            None => EvalOut::Fail(EvalErrV::NotDefined(name)),
            Some(fv) => match fv {
                ValueV::Function(f) => {
                    let params = function_params(f);
                    if args.len() != params.len() {
                        EvalOut::Fail(
                            EvalErrV::ArityMismatch {
                                name,
                                expected: params.len(),
                                actual: args.len(),
                            },
                        )
                    } else {
                        match eval_args(fuel, args, env) {
                            ArgsOut::Fail(e) => EvalOut::Fail(e),
                            ArgsOut::Host => EvalOut::Host,
                            ArgsOut::Vals(vals) => match f {
                                FunctionV::Native(_) => EvalOut::Host,
                                FunctionV::UserDefined(u) => {
                                    if fuel == 0 {
                                        EvalOut::Fail(EvalErrV::DepthLimit)
                                    } else {
                                        let bind_env = ScopeV {
                                            vars: bind_args(params, vals),
                                            parent: Some(Box::new(env)),
                                        };
                                        let body_env = ScopeV {
                                            vars: Map::empty(),
                                            parent: Some(Box::new(bind_env)),
                                        };
                                        eval_sequence(
                                            (fuel - 1) as nat,
                                            u.body,
                                            body_env,
                                            ValueV::Null,
                                        )
                                    }
                                },
                            },
                        }
                    }
                },
                _ => EvalOut::Fail(EvalErrV::NotAFunction(name)),
            },
        },
    }
}

/// Nodes evaluated in order against one scope, all results but the last
/// discarded; an empty sequence evaluates to `last`.
pub open spec fn eval_sequence(fuel: nat, nodes: Seq<NodeV>, env: ScopeV, last: ValueV) -> EvalOut
    decreases fuel, nodes,
{
    if nodes.len() == 0 {
        EvalOut::Val(last)
    } else {
        match eval_node(fuel, nodes[0], env) {
            EvalOut::Fail(e) => EvalOut::Fail(e),
            EvalOut::Host => EvalOut::Host,
            EvalOut::Val(v) => eval_sequence(fuel, nodes.skip(1), env, v),
        }
    }
}

/// Argument or element nodes evaluated left to right in one scope.
pub open spec fn eval_args(fuel: nat, args: Seq<NodeV>, env: ScopeV) -> ArgsOut
    decreases fuel, args,
{
    if args.len() == 0 {
        ArgsOut::Vals(Seq::empty())
    } else {
        match eval_node(fuel, args[0], env) {
            EvalOut::Fail(e) => ArgsOut::Fail(e),
            EvalOut::Host => ArgsOut::Host,
            EvalOut::Val(v) => match eval_args(fuel, args.skip(1), env) {
                ArgsOut::Fail(e) => ArgsOut::Fail(e),
                ArgsOut::Host => ArgsOut::Host,
                ArgsOut::Vals(rest) => ArgsOut::Vals(seq![v] + rest),
            },
        }
    }
}

/// A value forced against a scope: a list evaluates each element node and
/// rewraps it as an atom, a table forces each stored value; scalars,
/// functions and null are returned unchanged.
pub open spec fn eval_value(fuel: nat, v: ValueV, env: ScopeV) -> EvalOut
    decreases fuel, v,
{
    match v {
        ValueV::List(elems) => match eval_args(fuel, elems, env) {
            ArgsOut::Fail(e) => EvalOut::Fail(e),
            ArgsOut::Host => EvalOut::Host,
            ArgsOut::Vals(vals) => EvalOut::Val(
                ValueV::List(vals.map_values(|x: ValueV| NodeV::Atom(x))),
            ),
        },
        ValueV::Table(pairs) => match eval_table(fuel, pairs, env) {
            TableOut::Fail(e) => EvalOut::Fail(e),
            TableOut::Host => EvalOut::Host,
            TableOut::Pairs(ps) => EvalOut::Val(ValueV::Table(ps)),
        },
        _ => EvalOut::Val(v),
    }
}

/// The stored values of a table forced in order; the keys are kept.
pub open spec fn eval_table(fuel: nat, pairs: Seq<(Seq<char>, ValueV)>, env: ScopeV) -> TableOut
    decreases fuel, pairs,
{
    if pairs.len() == 0 {
        TableOut::Pairs(Seq::empty())
    } else {
        match eval_value(fuel, pairs[0].1, env) {
            EvalOut::Fail(e) => TableOut::Fail(e),
            EvalOut::Host => TableOut::Host,
            EvalOut::Val(v) => match eval_table(fuel, pairs.skip(1), env) {
                TableOut::Fail(e) => TableOut::Fail(e),
                TableOut::Host => TableOut::Host,
                TableOut::Pairs(rest) => TableOut::Pairs(seq![(pairs[0].0, v)] + rest),
            },
        }
    }
}

// ------------------------------------------------------------------
// Laws
// ------------------------------------------------------------------

/// Binding a name in a scope shadows: the bound scope resolves the name to
/// the new value, every other name as before, and its parent component —
/// and so everything any ancestor scope resolves — is unchanged.
pub proof fn lemma_scope_set_shadows(s: ScopeV, name: Seq<char>, value: ValueV)
    ensures
        (ScopeV { vars: s.vars.insert(name, value), parent: s.parent }).lookup(name) == Some(
            value,
        ),
        (ScopeV { vars: s.vars.insert(name, value), parent: s.parent }).parent == s.parent,
        forall|other: Seq<char>|
            other != name ==> #[trigger] (ScopeV {
                vars: s.vars.insert(name, value),
                parent: s.parent,
            }).lookup(other) == s.lookup(other),
{
}

/// A name not bound in a scope's own frame resolves through the parent
/// chain.
pub proof fn lemma_scope_lookup_via_chain(
    child: ScopeV,
    parent: ScopeV,
    name: Seq<char>,
    value: ValueV,
)
    requires
        !child.vars.contains_key(name),
        child.parent == Some(Box::new(parent)),
        parent.lookup(name) == Some(value),
    ensures
        child.lookup(name) == Some(value),
{
}

/// Calling a function bound to `name` with the wrong number of arguments
/// fails with the arity error naming the declared and the given counts,
/// whatever both counts are.
pub proof fn lemma_arity_mismatch(
    fuel: nat,
    name: Seq<char>,
    args: Seq<NodeV>,
    env: ScopeV,
    f: FunctionV,
)
    requires
        env.lookup(name) == Some(ValueV::Function(f)),
        args.len() != function_params(f).len(),
    ensures
        eval_node(fuel, NodeV::FunctionCall(name, args), env) == EvalOut::Fail(
            EvalErrV::ArityMismatch {
                name,
                expected: function_params(f).len(),
                actual: args.len(),
            },
        ),
{
}

/// A scalar in a scope: the spec predicate for the literal-idempotence
/// law.
pub open spec fn is_scalar(v: ValueV) -> bool {
    v is Number || v is String || v is Boolean
}

/// Evaluating an atom of a scalar value returns that exact value
/// unchanged, in any scope and at any depth.
pub proof fn lemma_literal_atom_identity(fuel: nat, v: ValueV, env: ScopeV)
    requires
        is_scalar(v),
    ensures
        eval_node(fuel, NodeV::Atom(v), env) == EvalOut::Val(v),
{
}

// ------------------------------------------------------------------
// The interpreter
// ------------------------------------------------------------------

/// An interpreter instance: one persistent global scope, against which
/// each `run` call evaluates.
pub struct Interpretator {
    pub global_scope: Scope,
}

impl Interpretator {
    /// Build an interpreter over the given global scope, or over a fresh
    /// empty one with no parent.
    pub fn new(global_scope: Option<Scope>) -> (it: Interpretator)
        ensures
            match global_scope {
                Some(s) => it.global_scope@ == s@,
                None => it.global_scope@.vars == Map::<Seq<char>, ValueV>::empty()
                    && it.global_scope@.parent is None,
            },
    {
        let global_scope = match global_scope {
            Some(s) => s,
            None => Scope::new(None),
        };
        Interpretator { global_scope }
    }

    /// Lex, parse and evaluate one unit of source text against the
    /// interpreter's global scope. The scope's bindings are intact after
    /// the call, whether it succeeds or fails; errors of the three stages
    /// come out of the one error channel.
    pub fn run(&mut self, source: String) -> (r: Result<Value, RunError>)
        ensures
            *final(self) == *old(self),
            ({
                match tokenize_spec(source@, 0) {
                    Err(le) => r matches Err(RunError::Lexer(e)) && e@ == le,
                    Ok(ts) => match parse_program_spec(ts, 0) {
                        Err(pe) => r matches Err(RunError::Parser(e)) && e@ == pe,
                        Ok(prog) => match eval_node(
                            MAX_CALL_DEPTH as nat,
                            prog,
                            old(self).global_scope@,
                        ) {
                            EvalOut::Val(v) => r matches Ok(val) && val@ == v,
                            EvalOut::Fail(er) => r matches Err(RunError::Interpretator(ie)) && ie@
                                == InterpretatorErrorV::EvaluationError(eval_err_msg(er)),
                            EvalOut::Host => r is Ok || (r matches Err(
                                RunError::Interpretator(ie),
                            ) && ie@ is EvaluationError),
                        },
                    },
                }
            }),
    {
        let mut parser = match Parser::from_source(source) {
            Ok(p) => p,
            Err(e) => {
                return Err(RunError::Lexer(e));
            },
        };
        let program = match parser.parseProgram() {
            Ok(p) => p,
            Err(e) => {
                return Err(RunError::Parser(e));
            },
        };
        match program.evaluate(&self.global_scope) {
            Ok(v) => Ok(v),
            Err(e) => Err(RunError::Interpretator(InterpretatorError::EvaluationError(e))),
        }
    }
}

} // verus!
