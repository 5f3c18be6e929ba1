//! The shared data model: `Node` (syntax) and `Value` (runtime data), with
//! the function representations used by the evaluator.
//!
//! Numbers are carried as their source spelling (see the lexer), so the
//! model is built from plain character sequences throughout. A native
//! function's host callback is opaque: nothing in the model depends on it,
//! and two values that differ only in their callbacks have the same view.

use std::rc::Rc;
use vstd::prelude::*;

use crate::interpretator::{
    bind_args, build_arity_mismatch, build_depth_limit, build_not_a_function, build_not_defined,
    eval_args, eval_err_msg, eval_node, eval_sequence, eval_table, eval_value, function_params,
    ArgsOut, EvalOut, Scope, TableOut, MAX_CALL_DEPTH,
};

verus! {

// ------------------------------------------------------------------
// Runtime values and functions
// ------------------------------------------------------------------

/// A runtime value. `Number` carries the spelling of the literal; `List`
/// stores *unevaluated* element nodes; `Table` is a map from names to
/// values, kept as a key-value sequence with unique keys.
pub enum Value {
    Number(String),
    String(String),
    Boolean(bool),
    List(Vec<Node>),
    Table(Vec<(String, Value)>),
    Function(Function),
    Null,
}

/// A callable: either host-provided or defined in the language.
pub enum Function {
    Native(NativeFunction),
    UserDefined(UserDefinedFunction),
}

/// A function defined in the language: parameter names and a body node
/// sequence.
pub struct UserDefinedFunction {
    pub args: Vec<String>,
    pub body: Vec<Node>,
}

/// A host-provided function: a name, parameter names (their count is the
/// arity), and the host callback.
pub struct NativeFunction {
    pub name: String,
    pub args: Vec<String>,
    pub func: NativeCallback,
}

/// A syntax-tree node.
pub enum Node {
    Atom(Value),
    FunctionCall(String, Vec<Node>),
    Program(Vec<Node>),
    Variable(String),
    EOF,
}

/// The host side of a native function: a callback from evaluated argument
/// values to a value or an error message. The callback is host code and is
/// held opaquely; nothing is ever proved about what it returns.
#[verifier::external_body]
pub struct NativeCallback {
    callback: Rc<dyn Fn(Vec<Value>) -> Result<Value, String>>,
}

impl NativeCallback {
    /// Wrap a host callback for registration in a scope.
    #[verifier::external_body]
    pub fn new<F: Fn(Vec<Value>) -> Result<Value, String> + 'static>(f: F) -> NativeCallback {
        NativeCallback { callback: Rc::new(f) }
    }

    /// Relies on the host-registered callback; whatever value or error it
    /// returns is handed back unchanged, and nothing is promised of it.
    #[verifier::external_body]
    pub fn invoke(&self, args: Vec<Value>) -> Result<Value, String> {
        (self.callback)(args)
    }
}

impl Clone for NativeCallback {
    /// The clone shares the host callback.
    #[verifier::external_body]
    fn clone(&self) -> NativeCallback {
        NativeCallback { callback: Rc::clone(&self.callback) }
    }
}

// ------------------------------------------------------------------
// Mathematical models
// ------------------------------------------------------------------

/// The model of a runtime value. A native function is modelled by its name
/// and parameter list alone: the host callback is outside the model.
pub enum ValueV {
    Number(Seq<char>),
    String(Seq<char>),
    Boolean(bool),
    List(Seq<NodeV>),
    Table(Seq<(Seq<char>, ValueV)>),
    Function(FunctionV),
    Null,
}

pub enum FunctionV {
    Native(NativeFunctionV),
    UserDefined(UserDefinedFunctionV),
}

pub struct UserDefinedFunctionV {
    pub args: Seq<Seq<char>>,
    pub body: Seq<NodeV>,
}

pub struct NativeFunctionV {
    pub name: Seq<char>,
    pub args: Seq<Seq<char>>,
}

/// The model of a syntax-tree node.
pub enum NodeV {
    Atom(ValueV),
    FunctionCall(Seq<char>, Seq<NodeV>),
    Program(Seq<NodeV>),
    Variable(Seq<char>),
    EOF,
}

pub open spec fn strings_view(ss: Seq<String>) -> Seq<Seq<char>> {
    ss.map_values(|s: String| s@)
}

pub open spec fn node_view(n: Node) -> NodeV
    decreases n,
{
    match n {
        Node::Atom(v) => NodeV::Atom(value_view(v)),
        Node::FunctionCall(name, args) => NodeV::FunctionCall(name@, nodes_view(args@)),
        Node::Program(ns) => NodeV::Program(nodes_view(ns@)),
        Node::Variable(name) => NodeV::Variable(name@),
        Node::EOF => NodeV::EOF,
    }
}

pub open spec fn nodes_view(ns: Seq<Node>) -> Seq<NodeV>
    decreases ns,
{
    if ns.len() == 0 {
        Seq::empty()
    } else {
        nodes_view(ns.drop_last()).push(node_view(ns.last()))
    }
}

pub open spec fn value_view(v: Value) -> ValueV
    decreases v,
{
    match v {
        Value::Number(s) => ValueV::Number(s@),
        Value::String(s) => ValueV::String(s@),
        Value::Boolean(b) => ValueV::Boolean(b),
        Value::List(ns) => ValueV::List(nodes_view(ns@)),
        Value::Table(ps) => ValueV::Table(pairs_view(ps@)),
        Value::Function(f) => ValueV::Function(function_view(f)),
        Value::Null => ValueV::Null,
    }
}

pub open spec fn pairs_view(ps: Seq<(String, Value)>) -> Seq<(Seq<char>, ValueV)>
    decreases ps,
{
    if ps.len() == 0 {
        Seq::empty()
    } else {
        pairs_view(ps.drop_last()).push((ps.last().0@, value_view(ps.last().1)))
    }
}

pub open spec fn function_view(f: Function) -> FunctionV
    decreases f,
{
    match f {
        Function::Native(nf) => FunctionV::Native(
            NativeFunctionV { name: nf.name@, args: strings_view(nf.args@) },
        ),
        Function::UserDefined(u) => FunctionV::UserDefined(
            UserDefinedFunctionV { args: strings_view(u.args@), body: nodes_view(u.body@) },
        ),
    }
}

impl View for Node {
    type V = NodeV;

    open spec fn view(&self) -> NodeV {
        node_view(*self)
    }
}

impl View for Value {
    type V = ValueV;

    open spec fn view(&self) -> ValueV {
        value_view(*self)
    }
}

impl View for Function {
    type V = FunctionV;

    open spec fn view(&self) -> FunctionV {
        function_view(*self)
    }
}

impl View for UserDefinedFunction {
    type V = UserDefinedFunctionV;

    open spec fn view(&self) -> UserDefinedFunctionV {
        UserDefinedFunctionV { args: strings_view(self.args@), body: nodes_view(self.body@) }
    }
}

impl View for NativeFunction {
    type V = NativeFunctionV;

    open spec fn view(&self) -> NativeFunctionV {
        NativeFunctionV { name: self.name@, args: strings_view(self.args@) }
    }
}

/// The recursive node-sequence view agrees with the element-wise view.
pub proof fn lemma_nodes_view_is_map(ns: Seq<Node>)
    ensures
        nodes_view(ns) == ns.map_values(|n: Node| n@),
    decreases ns,
{
    if ns.len() == 0 {
        assert(nodes_view(ns) =~= ns.map_values(|n: Node| n@));
    } else {
        lemma_nodes_view_is_map(ns.drop_last());
        assert(nodes_view(ns) =~= ns.map_values(|n: Node| n@));
    }
}

// ------------------------------------------------------------------
// Deep clones
// ------------------------------------------------------------------

pub(crate) fn clone_nodes(v: &Vec<Node>) -> (res: Vec<Node>)
    ensures
        res@.len() == v@.len(),
        nodes_view(res@) == nodes_view(v@),
    decreases v@,
{
    let mut res: Vec<Node> = Vec::new();
    let mut i: usize = 0;
    while i < v.len()
        invariant
            0 <= i <= v@.len(),
            res@.len() == i,
            forall|j: int| 0 <= j < i ==> res@[j]@ == v@[j]@,
        decreases v@.len() - i,
    {
        let n = &v[i];
        res.push(n.clone());
        i = i + 1;
    }
    proof {
        lemma_nodes_view_is_map(res@);
        lemma_nodes_view_is_map(v@);
        assert(res@.map_values(|n: Node| n@) =~= v@.map_values(|n: Node| n@));
    }
    res
}

pub(crate) fn clone_strings(v: &Vec<String>) -> (res: Vec<String>)
    ensures
        res@.len() == v@.len(),
        strings_view(res@) == strings_view(v@),
{
    let mut res: Vec<String> = Vec::new();
    let mut i: usize = 0;
    while i < v.len()
        invariant
            0 <= i <= v@.len(),
            res@.len() == i,
            forall|j: int| 0 <= j < i ==> res@[j]@ == v@[j]@,
        decreases v@.len() - i,
    {
        res.push(v[i].clone());
        i = i + 1;
    }
    proof {
        assert(res@.map_values(|s: String| s@) =~= v@.map_values(|s: String| s@));
    }
    res
}

pub(crate) fn clone_pairs(v: &Vec<(String, Value)>) -> (res: Vec<(String, Value)>)
    ensures
        res@.len() == v@.len(),
        pairs_view(res@) == pairs_view(v@),
    decreases v@,
{
    let mut res: Vec<(String, Value)> = Vec::new();
    let mut i: usize = 0;
    while i < v.len()
        invariant
            0 <= i <= v@.len(),
            res@.len() == i,
            forall|j: int| 0 <= j < i ==> res@[j].0@ == v@[j].0@ && res@[j].1@ == v@[j].1@,
        decreases v@.len() - i,
    {
        let p = &v[i];
        res.push((p.0.clone(), p.1.clone()));
        i = i + 1;
    }
    proof {
        lemma_pairs_view_is_map(res@);
        lemma_pairs_view_is_map(v@);
        let f = |p: (String, Value)| (p.0@, value_view(p.1));
        assert(res@.map_values(f) =~= v@.map_values(f));
    }
    res
}

impl Clone for Node {
    /// A deep copy with the same view.
    fn clone(&self) -> (res: Node)
        ensures
            res@ == self@,
        decreases *self,
    {
        match self {
            Node::Atom(v) => Node::Atom(v.clone()),
            Node::FunctionCall(name, args) => Node::FunctionCall(name.clone(), clone_nodes(args)),
            Node::Program(ns) => Node::Program(clone_nodes(ns)),
            Node::Variable(name) => Node::Variable(name.clone()),
            Node::EOF => Node::EOF,
        }
    }
}

impl Clone for Value {
    /// A deep copy with the same view; a native function's clone shares the
    /// host callback.
    fn clone(&self) -> (res: Value)
        ensures
            res@ == self@,
        decreases *self,
    {
        match self {
            Value::Number(s) => Value::Number(s.clone()),
            Value::String(s) => Value::String(s.clone()),
            Value::Boolean(b) => Value::Boolean(*b),
            Value::List(ns) => Value::List(clone_nodes(ns)),
            Value::Table(ps) => Value::Table(clone_pairs(ps)),
            Value::Function(f) => Value::Function(f.clone()),
            Value::Null => Value::Null,
        }
    }
}

impl Clone for Function {
    /// A deep copy with the same view; a native function's clone shares the
    /// host callback.
    fn clone(&self) -> (res: Function)
        ensures
            res@ == self@,
        decreases *self,
    {
        match self {
            Function::Native(nf) => Function::Native(nf.clone()),
            Function::UserDefined(u) => Function::UserDefined(u.clone()),
        }
    }
}

impl Clone for NativeFunction {
    /// A copy that shares the host callback; its view is unchanged.
    fn clone(&self) -> (res: NativeFunction)
        ensures
            res@ == self@,
        decreases *self,
    {
        NativeFunction {
            name: self.name.clone(),
            args: clone_strings(&self.args),
            func: self.func.clone(),
        }
    }
}

impl Clone for UserDefinedFunction {
    /// A deep copy with the same view.
    fn clone(&self) -> (res: UserDefinedFunction)
        ensures
            res@ == self@,
        decreases *self,
    {
        UserDefinedFunction { args: clone_strings(&self.args), body: clone_nodes(&self.body) }
    }
}

// ------------------------------------------------------------------
// Structural equality
// ------------------------------------------------------------------

fn nodes_eq(a: &Vec<Node>, b: &Vec<Node>) -> (r: bool)
    ensures
        r == (nodes_view(a@) == nodes_view(b@)),
    decreases a@,
{
    proof {
        lemma_nodes_view_is_map(a@);
        lemma_nodes_view_is_map(b@);
    }
    if a.len() != b.len() {
        proof {
            assert(a@.map_values(|n: Node| n@).len() == a@.len());
            assert(b@.map_values(|n: Node| n@).len() == b@.len());
        }
        return false;
    }
    let mut i: usize = 0;
    while i < a.len()
        invariant
            a@.len() == b@.len(),
            0 <= i <= a@.len(),
            nodes_view(a@) == a@.map_values(|n: Node| n@),
            nodes_view(b@) == b@.map_values(|n: Node| n@),
            forall|j: int| 0 <= j < i ==> a@[j]@ == b@[j]@,
        decreases a@.len() - i,
    {
        let x = &a[i];
        let y = &b[i];
        if !(*x == *y) {
            proof {
                assert(a@.map_values(|n: Node| n@)[i as int] == a@[i as int]@);
                assert(b@.map_values(|n: Node| n@)[i as int] == b@[i as int]@);
            }
            return false;
        }
        i = i + 1;
    }
    proof {
        assert(a@.map_values(|n: Node| n@) =~= b@.map_values(|n: Node| n@));
    }
    true
}

fn strings_eq(a: &Vec<String>, b: &Vec<String>) -> (r: bool)
    ensures
        r == (strings_view(a@) == strings_view(b@)),
{
    if a.len() != b.len() {
        proof {
            assert(a@.map_values(|s: String| s@).len() == a@.len());
            assert(b@.map_values(|s: String| s@).len() == b@.len());
        }
        return false;
    }
    let mut i: usize = 0;
    while i < a.len()
        invariant
            a@.len() == b@.len(),
            0 <= i <= a@.len(),
            forall|j: int| 0 <= j < i ==> a@[j]@ == b@[j]@,
        decreases a@.len() - i,
    {
        if !(a[i] == b[i]) {
            proof {
                assert(a@.map_values(|s: String| s@)[i as int] == a@[i as int]@);
                assert(b@.map_values(|s: String| s@)[i as int] == b@[i as int]@);
            }
            return false;
        }
        i = i + 1;
    }
    proof {
        assert(a@.map_values(|s: String| s@) =~= b@.map_values(|s: String| s@));
    }
    true
}

fn pairs_eq(a: &Vec<(String, Value)>, b: &Vec<(String, Value)>) -> (r: bool)
    ensures
        r == (pairs_view(a@) == pairs_view(b@)),
    decreases a@,
{
    proof {
        lemma_pairs_view_is_map(a@);
        lemma_pairs_view_is_map(b@);
    }
    if a.len() != b.len() {
        proof {
            assert(a@.map_values(|p: (String, Value)| (p.0@, value_view(p.1))).len()
                == a@.len());
            assert(b@.map_values(|p: (String, Value)| (p.0@, value_view(p.1))).len()
                == b@.len());
        }
        return false;
    }
    let mut i: usize = 0;
    while i < a.len()
        invariant
            a@.len() == b@.len(),
            0 <= i <= a@.len(),
            pairs_view(a@) == a@.map_values(|p: (String, Value)| (p.0@, value_view(p.1))),
            pairs_view(b@) == b@.map_values(|p: (String, Value)| (p.0@, value_view(p.1))),
            forall|j: int| 0 <= j < i ==> a@[j].0@ == b@[j].0@ && a@[j].1@ == b@[j].1@,
        decreases a@.len() - i,
    {
        let x = &a[i];
        let y = &b[i];
        let keys_differ = !(x.0 == y.0);
        if keys_differ || !(x.1 == y.1) {
            proof {
                assert(a@.map_values(|p: (String, Value)| (p.0@, value_view(p.1)))[i as int]
                    == (a@[i as int].0@, value_view(a@[i as int].1)));
                assert(b@.map_values(|p: (String, Value)| (p.0@, value_view(p.1)))[i as int]
                    == (b@[i as int].0@, value_view(b@[i as int].1)));
            }
            return false;
        }
        i = i + 1;
    }
    proof {
        let f = |p: (String, Value)| (p.0@, value_view(p.1));
        assert(a@.map_values(f) =~= b@.map_values(f));
    }
    true
}

impl PartialEq for Node {
    /// Structural equality of the views.
    fn eq(&self, other: &Node) -> (r: bool)
        decreases *self,
    {
        match (self, other) {
            (Node::Atom(a), Node::Atom(b)) => *a == *b,
            (Node::FunctionCall(n1, a1), Node::FunctionCall(n2, a2)) => *n1 == *n2 && nodes_eq(
                a1,
                a2,
            ),
            (Node::Program(x), Node::Program(y)) => nodes_eq(x, y),
            (Node::Variable(a), Node::Variable(b)) => *a == *b,
            (Node::EOF, Node::EOF) => true,
            _ => false,
        }
    }
}

impl vstd::std_specs::cmp::PartialEqSpecImpl for Node {
    open spec fn obeys_eq_spec() -> bool {
        true
    }

    open spec fn eq_spec(&self, other: &Node) -> bool {
        self@ == other@
    }
}

impl PartialEq for Value {
    /// Structural equality of the views. Two native functions are equal
    /// when their names and parameter lists agree; the host callback is not
    /// compared.
    fn eq(&self, other: &Value) -> (r: bool)
        decreases *self,
    {
        match (self, other) {
            (Value::Number(a), Value::Number(b)) => *a == *b,
            (Value::String(a), Value::String(b)) => *a == *b,
            (Value::Boolean(a), Value::Boolean(b)) => *a == *b,
            (Value::List(x), Value::List(y)) => nodes_eq(x, y),
            (Value::Table(x), Value::Table(y)) => pairs_eq(x, y),
            (Value::Function(f), Value::Function(g)) => *f == *g,
            (Value::Null, Value::Null) => true,
            _ => false,
        }
    }
}

impl vstd::std_specs::cmp::PartialEqSpecImpl for Value {
    open spec fn obeys_eq_spec() -> bool {
        true
    }

    open spec fn eq_spec(&self, other: &Value) -> bool {
        self@ == other@
    }
}

impl PartialEq for Function {
    /// Structural equality of the views; the host callback of a native
    /// function is not compared.
    fn eq(&self, other: &Function) -> (r: bool)
        decreases *self,
    {
        match (self, other) {
            (Function::Native(a), Function::Native(b)) => a.name == b.name && strings_eq(
                &a.args,
                &b.args,
            ),
            (Function::UserDefined(a), Function::UserDefined(b)) => strings_eq(&a.args, &b.args)
                && nodes_eq(&a.body, &b.body),
            _ => false,
        }
    }
}

impl vstd::std_specs::cmp::PartialEqSpecImpl for Function {
    open spec fn obeys_eq_spec() -> bool {
        true
    }

    open spec fn eq_spec(&self, other: &Function) -> bool {
        self@ == other@
    }
}

// ------------------------------------------------------------------
// Evaluation
// ------------------------------------------------------------------

/// The element-wise view of a value sequence.
pub open spec fn values_view(vs: Seq<Value>) -> Seq<ValueV> {
    vs.map_values(|v: Value| v@)
}

/// Argument or element nodes evaluated left to right in one scope; the
/// first failure aborts.
fn evaluate_arg_nodes(args: &Vec<Node>, scope: &Scope, fuel: u64) -> (r: Result<
    Vec<Value>,
    String,
>)
    ensures
        ({
            match eval_args(fuel as nat, nodes_view(args@), scope@) {
                ArgsOut::Vals(vs) => r matches Ok(vals) && values_view(vals@) == vs,
                ArgsOut::Fail(e) => r matches Err(m) && m@ == eval_err_msg(e),
                ArgsOut::Host => true,
            }
        }),
        r matches Ok(vals) ==> vals@.len() == args@.len(),
    decreases fuel, args@,
{
    let ghost argsv = nodes_view(args@);
    let ghost envv = scope@;
    proof {
        lemma_nodes_view_is_map(args@);
        assert(argsv.skip(0) =~= argsv);
        match eval_args(fuel as nat, argsv, envv) {
            ArgsOut::Vals(rest) => {
                assert(Seq::<ValueV>::empty() + rest =~= rest);
            },
            _ => {},
        }
        assert(values_view(Seq::<Value>::empty()) =~= Seq::<ValueV>::empty());
    }
    let mut vals: Vec<Value> = Vec::new();
    let mut i: usize = 0;
    while i < args.len()
        invariant
            0 <= i <= args@.len(),
            vals@.len() == i,
            argsv == nodes_view(args@),
            argsv == args@.map_values(|n: Node| n@),
            envv == scope@,
            ({
                match eval_args(fuel as nat, argsv.skip(i as int), envv) {
                    ArgsOut::Vals(rest) => eval_args(fuel as nat, argsv, envv) == ArgsOut::Vals(
                        values_view(vals@) + rest,
                    ),
                    ArgsOut::Fail(e) => eval_args(fuel as nat, argsv, envv) == ArgsOut::Fail(e),
                    ArgsOut::Host => eval_args(fuel as nat, argsv, envv) == ArgsOut::Host,
                }
            }) || eval_args(fuel as nat, argsv, envv) is Host,
        decreases args@.len() - i,
    {
        let n = &args[i];
        proof {
            assert(argsv.skip(i as int)[0] == argsv[i as int]);
            assert(argsv[i as int] == n@);
            assert(argsv.skip(i as int).skip(1) =~= argsv.skip(i as int + 1));
        }
        match n.evaluate_rec(scope, fuel) {
            Ok(v) => {
                let ghost av = v@;
                let ghost valsv0 = values_view(vals@);
                vals.push(v);
                proof {
                    assert(values_view(vals@) =~= valsv0.push(av));
                    match eval_args(fuel as nat, argsv.skip(i as int + 1), envv) {
                        ArgsOut::Vals(rest2) => {
                            assert(valsv0 + (seq![av] + rest2) =~= valsv0.push(av) + rest2);
                        },
                        _ => {},
                    }
                }
            },
            Err(e) => {
                return Err(e);
            },
        }
        i = i + 1;
    }
    proof {
        assert(argsv.skip(args@.len() as int) =~= Seq::<NodeV>::empty());
        match eval_args(fuel as nat, argsv, envv) {
            ArgsOut::Vals(rest) => {
                assert(values_view(vals@) + Seq::<ValueV>::empty() =~= values_view(vals@));
            },
            _ => {},
        }
    }
    Ok(vals)
}

/// The stored values of a table forced in order; the keys are kept.
fn evaluate_table_pairs(ps: &Vec<(String, Value)>, scope: &Scope, fuel: u64) -> (r: Result<
    Vec<(String, Value)>,
    String,
>)
    ensures
        ({
            match eval_table(fuel as nat, pairs_view(ps@), scope@) {
                TableOut::Pairs(qs) => r matches Ok(out) && pairs_view(out@) == qs,
                TableOut::Fail(e) => r matches Err(m) && m@ == eval_err_msg(e),
                TableOut::Host => true,
            }
        }),
    decreases fuel, ps@,
{
    let ghost psv = pairs_view(ps@);
    let ghost envv = scope@;
    proof {
        lemma_pairs_view_is_map(ps@);
        assert(psv.skip(0) =~= psv);
        match eval_table(fuel as nat, psv, envv) {
            TableOut::Pairs(rest) => {
                assert(Seq::<(Seq<char>, ValueV)>::empty() + rest =~= rest);
            },
            _ => {},
        }
        assert(pairs_view(Seq::<(String, Value)>::empty()) =~= Seq::<(Seq<char>, ValueV)>::empty());
    }
    let mut out: Vec<(String, Value)> = Vec::new();
    let mut i: usize = 0;
    while i < ps.len()
        invariant
            0 <= i <= ps@.len(),
            psv == pairs_view(ps@),
            psv == ps@.map_values(|p: (String, Value)| (p.0@, value_view(p.1))),
            envv == scope@,
            ({
                match eval_table(fuel as nat, psv.skip(i as int), envv) {
                    TableOut::Pairs(rest) => eval_table(fuel as nat, psv, envv) == TableOut::Pairs(
                        pairs_view(out@) + rest,
                    ),
                    TableOut::Fail(e) => eval_table(fuel as nat, psv, envv) == TableOut::Fail(e),
                    TableOut::Host => eval_table(fuel as nat, psv, envv) == TableOut::Host,
                }
            }) || eval_table(fuel as nat, psv, envv) is Host,
        decreases ps@.len() - i,
    {
        let p = &ps[i];
        proof {
            assert(psv.skip(i as int)[0] == psv[i as int]);
            assert(psv[i as int] == (p.0@, value_view(p.1)));
            assert(psv.skip(i as int).skip(1) =~= psv.skip(i as int + 1));
        }
        match p.1.evaluate_rec(scope, fuel) {
            Ok(v) => {
                let ghost kv = p.0@;
                let ghost av = v@;
                let ghost out0 = pairs_view(out@);
                let ghost prevv = out@;
                out.push((p.0.clone(), v));
                proof {
                    lemma_pairs_view_is_map(prevv);
                    lemma_pairs_view_is_map(out@);
                    assert(out@.map_values(|q: (String, Value)| (q.0@, value_view(q.1)))
                        =~= prevv.map_values(|q: (String, Value)| (q.0@, value_view(q.1))).push(
                        (kv, av),
                    ));
                    assert(pairs_view(out@) =~= out0.push((kv, av)));
                    match eval_table(fuel as nat, psv.skip(i as int + 1), envv) {
                        TableOut::Pairs(rest2) => {
                            assert(out0 + (seq![(kv, av)] + rest2) =~= out0.push((kv, av))
                                + rest2);
                        },
                        _ => {},
                    }
                }
            },
            Err(e) => {
                return Err(e);
            },
        }
        i = i + 1;
    }
    proof {
        assert(psv.skip(ps@.len() as int) =~= Seq::<(Seq<char>, ValueV)>::empty());
        match eval_table(fuel as nat, psv, envv) {
            TableOut::Pairs(rest) => {
                assert(pairs_view(out@) + Seq::<(Seq<char>, ValueV)>::empty() =~= pairs_view(
                    out@,
                ));
            },
            _ => {},
        }
    }
    Ok(out)
}

/// Nodes evaluated in order against one scope, as a program body is: all
/// results but the last discarded, the first failure reported.
fn eval_node_sequence(nodes: &Vec<Node>, scope: &Scope, fuel: u64) -> (r: Result<Value, String>)
    ensures
        ({
            match eval_sequence(fuel as nat, nodes_view(nodes@), scope@, ValueV::Null) {
                EvalOut::Val(v) => r matches Ok(rv) && rv@ == v,
                EvalOut::Fail(e) => r matches Err(m) && m@ == eval_err_msg(e),
                EvalOut::Host => true,
            }
        }),
    decreases fuel, nodes@,
{
    let ghost nsv = nodes_view(nodes@);
    let ghost envv = scope@;
    proof {
        lemma_nodes_view_is_map(nodes@);
        assert(nsv.skip(0) =~= nsv);
    }
    let mut result = Value::Null;
    let mut k: usize = 0;
    while k < nodes.len()
        invariant
            0 <= k <= nodes@.len(),
            nsv == nodes_view(nodes@),
            nsv == nodes@.map_values(|n: Node| n@),
            envv == scope@,
            eval_sequence(fuel as nat, nsv, envv, ValueV::Null) == eval_sequence(
                fuel as nat,
                nsv.skip(k as int),
                envv,
                result@,
            ) || eval_sequence(fuel as nat, nsv, envv, ValueV::Null) is Host,
        decreases nodes@.len() - k,
    {
        let n = &nodes[k];
        proof {
            assert(nsv.skip(k as int)[0] == nsv[k as int]);
            assert(nsv[k as int] == n@);
            assert(nsv.skip(k as int).skip(1) =~= nsv.skip(k as int + 1));
        }
        match n.evaluate_rec(scope, fuel) {
            Ok(v) => {
                result = v;
            },
            Err(e) => {
                return Err(e);
            },
        }
        k = k + 1;
    }
    proof {
        assert(nsv.skip(nodes@.len() as int) =~= Seq::<NodeV>::empty());
    }
    Ok(result)
}

impl Node {
    /// Evaluate this node against a scope, at the default call-depth
    /// budget. The result is the one the big-step semantics gives; a
    /// runtime failure is reported as its message string. A run that
    /// reaches a host callback is outside the semantics, and nothing is
    /// promised of it beyond termination.
    pub fn evaluate(&self, scope: &Scope) -> (r: Result<Value, String>)
        ensures
            ({
                match eval_node(MAX_CALL_DEPTH as nat, node_view(*self), scope@) {
                    EvalOut::Val(v) => r matches Ok(rv) && rv@ == v,
                    EvalOut::Fail(e) => r matches Err(m) && m@ == eval_err_msg(e),
                    EvalOut::Host => true,
                }
            }),
    {
        self.evaluate_rec(scope, MAX_CALL_DEPTH)
    }

    /// Evaluate with an explicit budget of user-defined call depth.
    fn evaluate_rec(&self, scope: &Scope, fuel: u64) -> (r: Result<Value, String>)
        ensures
            ({
                match eval_node(fuel as nat, node_view(*self), scope@) {
                    EvalOut::Val(v) => r matches Ok(rv) && rv@ == v,
                    EvalOut::Fail(e) => r matches Err(m) && m@ == eval_err_msg(e),
                    EvalOut::Host => true,
                }
            }),
        decreases fuel, *self,
    {
        match self {
            Node::Atom(v) => v.evaluate_rec(scope, fuel),
            Node::Variable(name) => match scope.get(name.as_str()) {
                Some(v) => Ok(v.clone()),
                None => Err(build_not_defined(name)),
            },
            Node::EOF => Ok(Value::Null),
            Node::Program(nodes) => eval_node_sequence(nodes, scope, fuel),
            Node::FunctionCall(name, args) => {
                let func = match scope.get(name.as_str()) {
                    Some(v) => v,
                    None => {
                        return Err(build_not_defined(name));
                    },
                };
                let f = match func {
                    Value::Function(f) => f,
                    _ => {
                        return Err(build_not_a_function(name));
                    },
                };
                let arg_names = match f {
                    Function::UserDefined(u) => clone_strings(&u.args),
                    Function::Native(nf) => clone_strings(&nf.args),
                };
                let ghost envv = scope@;
                let ghost argsv = nodes_view(args@);
                let ghost paramsv = function_params(function_view(*f));
                proof {
                    lemma_nodes_view_is_map(args@);
                    assert(argsv.len() == args@.len());
                    assert(paramsv.len() == arg_names@.len());
                }
                if args.len() != arg_names.len() {
                    return Err(build_arity_mismatch(name, arg_names.len(), args.len()));
                }
                let evaluated_args = match evaluate_arg_nodes(args, scope, fuel) {
                    Ok(v) => v,
                    Err(e) => {
                        return Err(e);
                    },
                };
                let ghost valsv = values_view(evaluated_args@);
                let mut new_scope = Scope::new(Some(scope));
                proof {
                    assert(paramsv.take(0) =~= Seq::<Seq<char>>::empty());
                    assert(valsv.take(0) =~= Seq::<ValueV>::empty());
                    assert(bind_args(Seq::<Seq<char>>::empty(), Seq::<ValueV>::empty())
                        == Map::<Seq<char>, ValueV>::empty());
                }
                let mut i: usize = 0;
                while i < evaluated_args.len()
                    invariant
                        0 <= i <= evaluated_args@.len(),
                        evaluated_args@.len() == arg_names@.len(),
                        paramsv == strings_view(arg_names@),
                        valsv == values_view(evaluated_args@),
                        envv == scope@,
                        new_scope@.vars == bind_args(
                            paramsv.take(i as int),
                            valsv.take(i as int),
                        ),
                        new_scope@.parent == Some(Box::new(envv)),
                    decreases evaluated_args@.len() - i,
                {
                    new_scope.set(arg_names[i].clone(), evaluated_args[i].clone());
                    proof {
                        assert(paramsv.take(i as int + 1).drop_last() =~= paramsv.take(i as int));
                        assert(valsv.take(i as int + 1).drop_last() =~= valsv.take(i as int));
                        assert(paramsv.take(i as int + 1).last() == paramsv[i as int]);
                        assert(valsv.take(i as int + 1).last() == valsv[i as int]);
                        assert(paramsv[i as int] == arg_names@[i as int]@);
                        assert(valsv[i as int] == evaluated_args@[i as int]@);
                    }
                    i = i + 1;
                }
                proof {
                    assert(paramsv.take(evaluated_args@.len() as int) =~= paramsv);
                    assert(valsv.take(evaluated_args@.len() as int) =~= valsv);
                }
                match f {
                    Function::UserDefined(u) => {
                        if fuel == 0 {
                            return Err(build_depth_limit());
                        }
                        let body_scope = Scope::new(Some(&new_scope));
                        eval_node_sequence(&u.body, &body_scope, fuel - 1)
                    },
                    Function::Native(nf) => nf.func.invoke(evaluated_args),
                }
            },
        }
    }
}

impl Value {
    /// Force this value against a scope, at the default call-depth budget:
    /// a list evaluates its element nodes and rewraps them as atoms, a
    /// table forces its stored values; scalars, functions and null come
    /// back unchanged.
    pub fn evaluate(&self, scope: &Scope) -> (r: Result<Value, String>)
        ensures
            ({
                match eval_value(MAX_CALL_DEPTH as nat, value_view(*self), scope@) {
                    EvalOut::Val(v) => r matches Ok(rv) && rv@ == v,
                    EvalOut::Fail(e) => r matches Err(m) && m@ == eval_err_msg(e),
                    EvalOut::Host => true,
                }
            }),
    {
        self.evaluate_rec(scope, MAX_CALL_DEPTH)
    }

    /// Force with an explicit budget of user-defined call depth.
    fn evaluate_rec(&self, scope: &Scope, fuel: u64) -> (r: Result<Value, String>)
        ensures
            ({
                match eval_value(fuel as nat, value_view(*self), scope@) {
                    EvalOut::Val(v) => r matches Ok(rv) && rv@ == v,
                    EvalOut::Fail(e) => r matches Err(m) && m@ == eval_err_msg(e),
                    EvalOut::Host => true,
                }
            }),
        decreases fuel, *self,
    {
        match self {
            Value::Number(s) => Ok(Value::Number(s.clone())),
            Value::String(s) => Ok(Value::String(s.clone())),
            Value::Boolean(b) => Ok(Value::Boolean(*b)),
            Value::Function(f) => Ok(Value::Function(f.clone())),
            Value::Null => Ok(Value::Null),
            Value::List(elems) => {
                let vals = match evaluate_arg_nodes(elems, scope, fuel) {
                    Ok(v) => v,
                    Err(e) => {
                        return Err(e);
                    },
                };
                let ghost vsv = values_view(vals@);
                let mut out: Vec<Node> = Vec::new();
                proof {
                    assert(nodes_view(out@) =~= vsv.take(0).map_values(
                        |x: ValueV| NodeV::Atom(x),
                    ));
                }
                let mut i: usize = 0;
                while i < vals.len()
                    invariant
                        0 <= i <= vals@.len(),
                        vsv == values_view(vals@),
                        out@.len() == i,
                        nodes_view(out@) == vsv.take(i as int).map_values(
                            |x: ValueV| NodeV::Atom(x),
                        ),
                    decreases vals@.len() - i,
                {
                    let ghost out0 = nodes_view(out@);
                    let ghost prevv = out@;
                    let ghost av = vals@[i as int]@;
                    out.push(Node::Atom(vals[i].clone()));
                    proof {
                        lemma_nodes_view_is_map(prevv);
                        lemma_nodes_view_is_map(out@);
                        assert(out@.map_values(|n: Node| n@) =~= prevv.map_values(
                            |n: Node| n@,
                        ).push(NodeV::Atom(av)));
                        assert(nodes_view(out@) =~= out0.push(NodeV::Atom(av)));
                        assert(vsv.take(i as int + 1) =~= vsv.take(i as int).push(av));
                        assert(vsv.take(i as int).push(av).map_values(|x: ValueV| NodeV::Atom(x))
                            =~= vsv.take(i as int).map_values(|x: ValueV| NodeV::Atom(x)).push(
                            NodeV::Atom(av),
                        ));
                    }
                    i = i + 1;
                }
                proof {
                    assert(vsv.take(vals@.len() as int) =~= vsv);
                }
                Ok(Value::List(out))
            },
            Value::Table(ps) => {
                match evaluate_table_pairs(ps, scope, fuel) {
                    Ok(out) => Ok(Value::Table(out)),
                    Err(e) => Err(e),
                }
            },
        }
    }
}

/// The recursive pair-sequence view agrees with the element-wise view.
pub proof fn lemma_pairs_view_is_map(ps: Seq<(String, Value)>)
    ensures
        pairs_view(ps) == ps.map_values(|p: (String, Value)| (p.0@, value_view(p.1))),
    decreases ps,
{
    let f = |p: (String, Value)| (p.0@, value_view(p.1));
    if ps.len() == 0 {
        assert(pairs_view(ps) =~= ps.map_values(f));
    } else {
        lemma_pairs_view_is_map(ps.drop_last());
        assert(pairs_view(ps) =~= ps.map_values(f));
    }
}

} // verus!
