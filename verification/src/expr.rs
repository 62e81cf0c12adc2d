//! Runtime values and expressions.

use vstd::prelude::*;
use vstd::string::*;
use std::collections::HashMap;
use std::rc::Rc;
use crate::number::{number_text, Number};
use crate::stmt::FunctionDecl;
use crate::token::{
    literal_number, literal_text, unwrap_as_number, unwrap_as_string, Token, TokenLiteral,
    TokenType,
};

verus! {

/// What a callable value runs when it is invoked.
#[derive(Debug)]
pub enum Function {
    /// The built-in clock.
    Clock,
    /// A function of the language: its declaration, the frame in which it
    /// was declared, and the binding distances its body was resolved with.
    Closure { declaration: Rc<FunctionDecl>, frame: usize, locals: Rc<HashMap<usize, usize>> },
}

/// A runtime value.
#[derive(Debug)]
pub enum LiteralValue {
    Number(Number),
    StringValue(String),
    True,
    False,
    Nil,
    /// A function: its name, the number of arguments it takes, and what it
    /// runs.
    Callable { name: String, arity: usize, fun: Function },
    /// A class: its name and its methods, one function for each method
    /// name.
    LoxClass { name: String, methods: Vec<LiteralValue> },
}

/// The type of a value, as diagnostics name it.
#[derive(Clone, Copy, Debug, PartialEq, Eq, Structural)]
pub enum Kind {
    Number,
    String,
    Boolean,
    Nil,
    Callable,
    Class,
}

/// Mathematical counterpart of [`Function`].
pub enum FunctionModel {
    Clock,
    Closure { declaration: FunctionDecl, frame: nat, locals: Map<usize, usize> },
}

/// Mathematical counterpart of [`LiteralValue`]: text is a sequence of
/// characters.
pub enum ValueModel {
    Number(Number),
    Text(Seq<char>),
    True,
    False,
    Nil,
    Callable { name: Seq<char>, arity: nat, fun: FunctionModel },
    Class { name: Seq<char>, methods: Seq<ValueModel> },
}

impl View for Function {
    type V = FunctionModel;

    open spec fn view(&self) -> FunctionModel {
        match *self {
            Function::Clock => FunctionModel::Clock,
            Function::Closure { declaration, frame, locals } => FunctionModel::Closure {
                declaration: *declaration,
                frame: frame as nat,
                locals: locals@,
            },
        }
    }
}

/// The mathematical counterpart of a value.
pub open spec fn model_of(v: LiteralValue) -> ValueModel
    decreases v, 0nat,
{
    match v {
        LiteralValue::Number(x) => ValueModel::Number(x),
        LiteralValue::StringValue(s) => ValueModel::Text(s@),
        LiteralValue::True => ValueModel::True,
        LiteralValue::False => ValueModel::False,
        LiteralValue::Nil => ValueModel::Nil,
        LiteralValue::Callable { name, arity, fun } => ValueModel::Callable {
            name: name@,
            arity: arity as nat,
            fun: fun@,
        },
        LiteralValue::LoxClass { name, methods } => ValueModel::Class {
            name: name@,
            methods: models_of(methods, methods.len() as nat),
        },
    }
}

/// The mathematical counterparts of the first `n` of the values, in order.
pub open spec fn models_of(values: Vec<LiteralValue>, n: nat) -> Seq<ValueModel>
    decreases values, n,
{
    if n == 0 || n > values.len() {
        Seq::empty()
    } else {
        models_of(values, (n - 1) as nat).push(model_of(values[n - 1]))
    }
}

impl View for LiteralValue {
    type V = ValueModel;

    open spec fn view(&self) -> ValueModel {
        model_of(*self)
    }
}

/// The view of an optional value.
pub open spec fn value_option_view(v: Option<LiteralValue>) -> Option<ValueModel> {
    match v {
        Some(x) => Some(x@),
        None => None,
    }
}

/// The views of the values of `values`, in order.
pub open spec fn values_view(values: Seq<LiteralValue>) -> Seq<ValueModel> {
    Seq::new(values.len(), |i: int| values[i]@)
}

/// The counterparts of the first `n` values are the views of these values.
pub proof fn lemma_models_of(values: Vec<LiteralValue>, n: nat)
    requires
        n <= values.len(),
    ensures
        models_of(values, n) == values_view(values@.take(n as int)),
    decreases n,
{
    if n > 0 {
        lemma_models_of(values, (n - 1) as nat);
        assert(models_of(values, n) =~= values_view(values@.take(n as int)));
    } else {
        assert(models_of(values, n) =~= values_view(values@.take(n as int)));
    }
}

/// The view of a class holds the views of its methods.
pub proof fn lemma_class_view(name: String, methods: Vec<LiteralValue>)
    ensures
        (LiteralValue::LoxClass { name, methods })@ == (ValueModel::Class {
            name: name@,
            methods: values_view(methods@),
        }),
{
    lemma_models_of(methods, methods.len() as nat);
    assert(methods@.take(methods.len() as int) =~= methods@);
}

/// An expression. `Variable` and `Assign` nodes carry the identity under
/// which a binding distance is recorded for them.
#[derive(Debug)]
#[allow(inconsistent_fields)]
pub enum Expr {
    Assign { id: usize, name: Token, value: Box<Expr> },
    Binary { left: Box<Expr>, operator: Token, right: Box<Expr> },
    Call { callee: Box<Expr>, arguments: Vec<Expr> },
    Grouping { expression: Box<Expr> },
    Literal { value: LiteralValue },
    Unary { operator: Token, right: Box<Expr> },
    Variable { id: usize, name: Token },
}

/// Whether the node with identity `id` has been visited, and the distance
/// recorded under `id`, if there is one, stays below `depth`, the number of
/// lexical scopes that enclose the node.
pub open spec fn entry_within(
    locals: Map<usize, usize>,
    seen: Set<usize>,
    id: usize,
    depth: nat,
) -> bool {
    seen.contains(id) && (locals.contains_key(id) ==> locals[id] < depth)
}

impl Expr {
    /// Whether every node of the expression that can carry a distance has
    /// its identity in `seen`, and every distance that `locals` records for
    /// such a node stays below `depth`, the number of lexical scopes that
    /// enclose the expression.
    pub open spec fn settled(self, locals: Map<usize, usize>, seen: Set<usize>, depth: nat) -> bool
        decreases self,
    {
        match self {
            Expr::Assign { id, name, value } => entry_within(locals, seen, id, depth)
                && value.settled(locals, seen, depth),
            Expr::Binary { left, operator, right } => left.settled(locals, seen, depth)
                && right.settled(locals, seen, depth),
            Expr::Call { callee, arguments } => callee.settled(locals, seen, depth) && forall|
                i: int,
            |
                0 <= i < arguments.len() ==> (#[trigger] arguments[i]).settled(
                    locals,
                    seen,
                    depth,
                ),
            Expr::Grouping { expression } => expression.settled(locals, seen, depth),
            Expr::Literal { value } => true,
            Expr::Unary { operator, right } => right.settled(locals, seen, depth),
            Expr::Variable { id, name } => entry_within(locals, seen, id, depth),
        }
    }

    /// Whether every distance that `locals` records for a node of the
    /// expression stays below `depth`, the number of lexical scopes that
    /// enclose the expression.
    pub open spec fn resolved_within(self, locals: Map<usize, usize>, depth: nat) -> bool {
        self.settled(locals, Set::full(), depth)
    }
}

/// Another handle on the value that `rc` points to. Wraps `Rc::clone`, which
/// makes a second pointer to the same allocation and leaves the value as it
/// is.
#[verifier::external_body]
pub(crate) fn share<T>(rc: &Rc<T>) -> (r: Rc<T>)
    ensures
        r == *rc,
{
    Rc::clone(rc)
}

impl Clone for Function {
    fn clone(&self) -> (r: Self)
        ensures
            r@ == self@,
    {
        match self {
            Function::Clock => Function::Clock,
            Function::Closure { declaration, frame, locals } => Function::Closure {
                declaration: share(declaration),
                frame: *frame,
                locals: share(locals),
            },
        }
    }
}

impl Clone for LiteralValue {
    fn clone(&self) -> (r: Self)
        ensures
            r@ == self@,
        decreases self,
    {
        match self {
            LiteralValue::Number(x) => LiteralValue::Number(*x),
            LiteralValue::StringValue(s) => LiteralValue::StringValue(s.clone()),
            LiteralValue::True => LiteralValue::True,
            LiteralValue::False => LiteralValue::False,
            LiteralValue::Nil => LiteralValue::Nil,
            LiteralValue::Callable { name, arity, fun } => LiteralValue::Callable {
                name: name.clone(),
                arity: *arity,
                fun: fun.clone(),
            },
            LiteralValue::LoxClass { name, methods } => {
                let copies = clone_values(methods);
                proof {
                    lemma_class_view(*name, *methods);
                    assert(values_view(copies@) =~= values_view(methods@));
                }
                let class_name = name.clone();
                proof {
                    lemma_class_view(class_name, copies);
                }
                LiteralValue::LoxClass { name: class_name, methods: copies }
            },
        }
    }
}

/// Copies of the values of `values`, in order.
pub fn clone_values(values: &Vec<LiteralValue>) -> (r: Vec<LiteralValue>)
    ensures
        r.len() == values.len(),
        forall|k: int| 0 <= k < values.len() ==> r[k]@ == values[k]@,
    decreases values,
{
    let mut copies: Vec<LiteralValue> = Vec::new();
    let mut i: usize = 0;
    while i < values.len()
        invariant
            i <= values.len(),
            copies.len() == i,
            forall|k: int| 0 <= k < i ==> copies[k]@ == values[k]@,
        decreases values.len() - i,
    {
        copies.push(values[i].clone());
        i = i + 1;
    }
    copies
}

/// Whether `a` comes before `b` when text is ordered character by character,
/// by code point, a proper prefix coming first.
pub open spec fn text_less(a: Seq<char>, b: Seq<char>) -> bool
    decreases a.len(),
{
    if b.len() == 0 {
        false
    } else if a.len() == 0 {
        true
    } else if a[0] != b[0] {
        (a[0] as u32) < (b[0] as u32)
    } else {
        text_less(a.drop_first(), b.drop_first())
    }
}

/// Whether `a` comes before `b`. Wraps the `<` of `str`, which std documents
/// as the lexicographic order of the UTF-8 bytes and so of the code points.
#[verifier::external_body]
pub(crate) fn str_less(a: &str, b: &str) -> (r: bool)
    ensures
        r == text_less(a@, b@),
{
    a < b
}

/// Whether the two functions are taken for the same one: both the clock, or
/// both closures over the same frame.
pub open spec fn functions_equal(a: FunctionModel, b: FunctionModel) -> bool {
    match (a, b) {
        (FunctionModel::Clock, FunctionModel::Clock) => true,
        (FunctionModel::Closure { frame: f, .. }, FunctionModel::Closure { frame: g, .. }) => f
            == g,
        _ => false,
    }
}

/// Equality of the language. Numbers and text compare by value; `true`,
/// `false` and `nil` equal themselves only; callables compare by name, arity
/// and function; classes compare by name. Values of different variants are
/// unequal.
pub open spec fn values_equal(a: ValueModel, b: ValueModel) -> bool {
    match (a, b) {
        (ValueModel::Number(x), ValueModel::Number(y)) => x == y,
        (ValueModel::Text(x), ValueModel::Text(y)) => x == y,
        (ValueModel::True, ValueModel::True) => true,
        (ValueModel::False, ValueModel::False) => true,
        (ValueModel::Nil, ValueModel::Nil) => true,
        (
            ValueModel::Callable { name: n, arity: k, fun: f },
            ValueModel::Callable { name: m, arity: l, fun: g },
        ) => n == m && k == l && functions_equal(f, g),
        (ValueModel::Class { name: n, .. }, ValueModel::Class { name: m, .. }) => n == m,
        _ => false,
    }
}

/// Index of the first of the values from the `i`-th on that is named `name`.
pub open spec fn position(values: Seq<ValueModel>, name: Seq<char>, i: nat) -> Option<nat>
    decreases values.len() - i,
{
    if i >= values.len() {
        None
    } else if values[i as int].name() == name {
        Some(i)
    } else {
        position(values, name, i + 1)
    }
}

/// The methods of a class after `method` was added: it takes the place of
/// the method of its name if there is one, and comes last otherwise.
pub open spec fn install(methods: Seq<ValueModel>, method: ValueModel) -> Seq<ValueModel> {
    match position(methods, method.name(), 0) {
        Some(k) => methods.update(k as int, method),
        None => methods.push(method),
    }
}

/// The first value named `name` is one of the values and has that name.
pub proof fn lemma_position(values: Seq<ValueModel>, name: Seq<char>, i: nat)
    ensures
        match position(values, name, i) {
            Some(k) => i <= k < values.len() && values[k as int].name() == name,
            None => true,
        },
    decreases values.len() - i,
{
    if i < values.len() && values[i as int].name() != name {
        lemma_position(values, name, i + 1);
    }
}

impl ValueModel {
    /// The name of a function or of a class; other values have the empty
    /// name.
    pub open spec fn name(self) -> Seq<char> {
        match self {
            ValueModel::Callable { name, .. } => name,
            ValueModel::Class { name, .. } => name,
            _ => Seq::empty(),
        }
    }

    /// The method of a class that is named `name`, if the value is a class
    /// that has one.
    pub open spec fn method(self, name: Seq<char>) -> Option<ValueModel> {
        match self {
            ValueModel::Class { methods, .. } => match position(methods, name, 0) {
                Some(k) => Some(methods[k as int]),
                None => None,
            },
            _ => None,
        }
    }

    /// The value that stands for a truth value.
    pub open spec fn of_bool(b: bool) -> ValueModel {
        if b {
            ValueModel::True
        } else {
            ValueModel::False
        }
    }

    /// Whether the value counts as false in a condition: only `nil` and
    /// `false` do.
    pub open spec fn falsy(self) -> bool {
        self is Nil || self is False
    }

    /// Whether the value is a number, text, a truth value or `nil`.
    pub open spec fn is_plain(self) -> bool {
        !(self is Callable) && !(self is Class)
    }

    /// The type of the value.
    pub open spec fn kind(self) -> Kind {
        match self {
            ValueModel::Number(_) => Kind::Number,
            ValueModel::Text(_) => Kind::String,
            ValueModel::True => Kind::Boolean,
            ValueModel::False => Kind::Boolean,
            ValueModel::Nil => Kind::Nil,
            ValueModel::Callable { .. } => Kind::Callable,
            ValueModel::Class { .. } => Kind::Class,
        }
    }

    /// Name of the value's type, as diagnostics print it.
    pub open spec fn kind_name(self) -> Seq<char> {
        self.kind().name_spec()
    }

    /// Text of the value, as `print` shows it.
    pub open spec fn text(self) -> Seq<char> {
        match self {
            ValueModel::Number(x) => number_text(x.micros as int),
            ValueModel::Text(s) => s,
            ValueModel::True => "true"@,
            ValueModel::False => "false"@,
            ValueModel::Nil => "nil"@,
            ValueModel::Callable { name, .. } => "<fn "@ + name + ">"@,
            ValueModel::Class { name, .. } => "<class "@ + name + ">"@,
        }
    }
}

/// Whether a token stands for a literal value that [`LiteralValue::from_token`]
/// can build.
pub open spec fn is_literal_token(token: Token) -> bool {
    match token.token_type {
        TokenType::Number => literal_number(token.literal) is Some,
        TokenType::StringLit => literal_text(token.literal) is Some,
        TokenType::False => true,
        TokenType::True => true,
        TokenType::Nil => true,
        _ => false,
    }
}

/// Whether a token stands for a literal value that
/// [`LiteralValue::from_token`] can build.
pub fn is_literal(token: &Token) -> (r: bool)
    ensures
        r == is_literal_token(*token),
{
    match token.token_type {
        TokenType::Number => match &token.literal {
            Some(TokenLiteral::IntValue(x)) => Number::from_integer(*x).is_some(),
            Some(TokenLiteral::FValue(_)) => true,
            _ => false,
        },
        TokenType::StringLit => match &token.literal {
            Some(TokenLiteral::StringValue(_)) => true,
            Some(TokenLiteral::IdentifierVal(_)) => true,
            _ => false,
        },
        TokenType::False => true,
        TokenType::True => true,
        TokenType::Nil => true,
        _ => false,
    }
}

/// The value that a literal token stands for.
pub open spec fn token_value(token: Token) -> ValueModel {
    match token.token_type {
        TokenType::Number => ValueModel::Number(literal_number(token.literal)->0),
        TokenType::StringLit => ValueModel::Text(literal_text(token.literal)->0),
        TokenType::False => ValueModel::False,
        TokenType::True => ValueModel::True,
        _ => ValueModel::Nil,
    }
}

impl Kind {
    /// Name of the type, as diagnostics print it.
    pub open spec fn name_spec(self) -> Seq<char> {
        match self {
            Kind::Number => "Number"@,
            Kind::String => "String"@,
            Kind::Boolean => "Boolean"@,
            Kind::Nil => "nil"@,
            Kind::Callable => "Callable"@,
            Kind::Class => "Class"@,
        }
    }

    /// Name of the type, as diagnostics print it.
    pub fn name(self) -> (r: &'static str)
        ensures
            r@ == self.name_spec(),
    {
        match self {
            Kind::Number => "Number",
            Kind::String => "String",
            Kind::Boolean => "Boolean",
            Kind::Nil => "nil",
            Kind::Callable => "Callable",
            Kind::Class => "Class",
        }
    }
}

impl Function {
    /// Whether the two functions are taken for the same one.
    pub fn same_as(&self, other: &Function) -> (r: bool)
        ensures
            r == functions_equal(self@, other@),
    {
        match self {
            Function::Clock => match other {
                Function::Clock => true,
                _ => false,
            },
            Function::Closure { frame, .. } => match other {
                Function::Closure { frame: g, .. } => *frame == *g,
                _ => false,
            },
        }
    }
}

/// Index of the first of the values that is named `name`.
fn find_named(values: &Vec<LiteralValue>, name: &str) -> (r: Option<usize>)
    ensures
        match r {
            Some(k) => position(values_view(values@), name@, 0) == Some(k as nat) && k
                < values.len(),
            None => position(values_view(values@), name@, 0) is None,
        },
{
    let wanted = String::from_str(name);
    let mut i: usize = 0;
    while i < values.len()
        invariant
            i <= values.len(),
            wanted@ == name@,
            position(values_view(values@), name@, i as nat) == position(
                values_view(values@),
                name@,
                0,
            ),
        decreases values.len() - i,
    {
        assert(values_view(values@)[i as int] == values[i as int]@);
        if values[i].name() == wanted {
            return Some(i);
        }
        i = i + 1;
    }
    None
}

/// Adds `method` to the methods of a class: it takes the place of the method
/// of its name if there is one, and comes last otherwise.
pub fn install_method(methods: &mut Vec<LiteralValue>, method: LiteralValue)
    ensures
        values_view(final(methods)@) == install(values_view(old(methods)@), method@),
{
    let name = method.name();
    match find_named(methods, name.as_str()) {
        Some(k) => {
            methods.set(k, method);
            assert(values_view(methods@) =~= install(values_view(old(methods)@), method@));
        },
        None => {
            methods.push(method);
            assert(values_view(methods@) =~= install(values_view(old(methods)@), method@));
        },
    }
}

impl LiteralValue {
    /// The name of a function or of a class; other values have the empty
    /// name.
    pub fn name(&self) -> (r: String)
        ensures
            r@ == self@.name(),
    {
        match self {
            LiteralValue::Callable { name, .. } => name.clone(),
            LiteralValue::LoxClass { name, .. } => name.clone(),
            _ => String::new(),
        }
    }

    /// The method of a class that is named `name`, if the value is a class
    /// that has one.
    pub fn method(&self, name: &str) -> (r: Option<LiteralValue>)
        ensures
            value_option_view(r) == self@.method(name@),
    {
        match self {
            LiteralValue::LoxClass { name: class_name, methods } => {
                proof {
                    lemma_class_view(*class_name, *methods);
                }
                match find_named(methods, name) {
                    Some(k) => Some(methods[k].clone()),
                    None => None,
                }
            },
            _ => None,
        }
    }

    /// Text of the value, as `print` shows it.
    pub fn to_string(&self) -> (r: String)
        ensures
            r@ == self@.text(),
    {
        match self {
            LiteralValue::Number(x) => x.to_string(),
            LiteralValue::StringValue(s) => s.clone(),
            LiteralValue::True => String::from_str("true"),
            LiteralValue::False => String::from_str("false"),
            LiteralValue::Nil => String::from_str("nil"),
            LiteralValue::Callable { name, .. } => {
                let mut out = String::from_str("<fn ");
                out.append(name.as_str());
                out.append(">");
                out
            },
            LiteralValue::LoxClass { name, .. } => {
                let mut out = String::from_str("<class ");
                out.append(name.as_str());
                out.append(">");
                out
            },
        }
    }

    /// The type of the value.
    pub fn kind(&self) -> (r: Kind)
        ensures
            r == self@.kind(),
    {
        match self {
            LiteralValue::Number(_) => Kind::Number,
            LiteralValue::StringValue(_) => Kind::String,
            LiteralValue::True => Kind::Boolean,
            LiteralValue::False => Kind::Boolean,
            LiteralValue::Nil => Kind::Nil,
            LiteralValue::Callable { .. } => Kind::Callable,
            LiteralValue::LoxClass { .. } => Kind::Class,
        }
    }

    /// Name of the value's type, as diagnostics print it.
    pub fn to_type(&self) -> (r: &'static str)
        ensures
            r@ == self@.kind_name(),
    {
        self.kind().name()
    }

    /// The value that a literal token stands for.
    pub fn from_token(token: Token) -> (r: LiteralValue)
        requires
            is_literal_token(token),
        ensures
            r@ == token_value(token),
    {
        match token.token_type {
            TokenType::Number => LiteralValue::Number(unwrap_as_number(token.literal)),
            TokenType::StringLit => LiteralValue::StringValue(unwrap_as_string(token.literal)),
            TokenType::False => LiteralValue::False,
            TokenType::True => LiteralValue::True,
            TokenType::Nil => LiteralValue::Nil,
            _ => unreached(),
        }
    }

    /// The value that stands for a truth value.
    pub fn from_bool(b: bool) -> (r: LiteralValue)
        ensures
            r@ == ValueModel::of_bool(b),
    {
        if b {
            LiteralValue::True
        } else {
            LiteralValue::False
        }
    }

    /// `True` when the value counts as false in a condition, else `False`.
    /// Only `nil` and `false` count as false: zero and the empty text do not.
    pub fn is_falsy(&self) -> (r: LiteralValue)
        ensures
            r@ == ValueModel::of_bool(self@.falsy()),
    {
        match self {
            LiteralValue::False => LiteralValue::True,
            LiteralValue::Nil => LiteralValue::True,
            _ => LiteralValue::False,
        }
    }

    /// `True` when the value counts as true in a condition, else `False`.
    pub fn is_truthy(&self) -> (r: LiteralValue)
        ensures
            r@ == ValueModel::of_bool(!self@.falsy()),
    {
        match self {
            LiteralValue::False => LiteralValue::False,
            LiteralValue::Nil => LiteralValue::False,
            _ => LiteralValue::True,
        }
    }

    /// Whether the value counts as true in a condition.
    pub fn truthy(&self) -> (r: bool)
        ensures
            r == !self@.falsy(),
    {
        match self {
            LiteralValue::False => false,
            LiteralValue::Nil => false,
            _ => true,
        }
    }

    /// Whether the value is a number, text, a truth value or `nil`.
    pub fn is_plain(&self) -> (r: bool)
        ensures
            r == self@.is_plain(),
    {
        match self {
            LiteralValue::Callable { .. } => false,
            LiteralValue::LoxClass { .. } => false,
            _ => true,
        }
    }
}

impl LiteralValue {
    /// Equality of the language; see [`values_equal`].
    pub fn equals(&self, other: &LiteralValue) -> (r: bool)
        ensures
            r == values_equal(self@, other@),
    {
        match self {
            LiteralValue::Number(x) => match other {
                LiteralValue::Number(y) => x.micros == y.micros,
                _ => false,
            },
            LiteralValue::StringValue(x) => match other {
                LiteralValue::StringValue(y) => *x == *y,
                _ => false,
            },
            LiteralValue::True => match other {
                LiteralValue::True => true,
                _ => false,
            },
            LiteralValue::False => match other {
                LiteralValue::False => true,
                _ => false,
            },
            LiteralValue::Nil => match other {
                LiteralValue::Nil => true,
                _ => false,
            },
            LiteralValue::Callable { name, arity, fun } => match other {
                LiteralValue::Callable { name: m, arity: l, fun: g } => *name == *m && *arity == *l
                    && fun.same_as(g),
                _ => false,
            },
            LiteralValue::LoxClass { name, .. } => match other {
                LiteralValue::LoxClass { name: m, .. } => *name == *m,
                _ => false,
            },
        }
    }
}

impl PartialEq for LiteralValue {
    fn eq(&self, other: &LiteralValue) -> (r: bool) {
        self.equals(other)
    }
}

impl vstd::std_specs::cmp::PartialEqSpecImpl for LiteralValue {
    open spec fn obeys_eq_spec() -> bool {
        true
    }

    open spec fn eq_spec(&self, other: &LiteralValue) -> bool {
        values_equal(self@, other@)
    }
}

/// The expressions of `es` from the `i`-th on as text, each behind a space.
pub open spec fn rendered_list(es: Vec<Expr>, i: nat) -> Seq<char>
    decreases es, es.len() - i,
{
    if i < es.len() {
        " "@ + es[i as int].rendered() + rendered_list(es, i + 1)
    } else {
        Seq::empty()
    }
}

impl Expr {
    /// The expression as text, in prefix form with parentheses.
    pub open spec fn rendered(self) -> Seq<char>
        decreases self, 0nat,
    {
        match self {
            Expr::Assign { id, name, value } => "(= "@ + name.lexeme@ + " "@ + value.rendered()
                + ")"@,
            Expr::Binary { left, operator, right } => "("@ + operator.lexeme@ + " "@
                + left.rendered() + " "@ + right.rendered() + ")"@,
            Expr::Call { callee, arguments } => "(call "@ + callee.rendered() + rendered_list(
                arguments,
                0,
            ) + ")"@,
            Expr::Grouping { expression } => "(group "@ + expression.rendered() + ")"@,
            Expr::Literal { value } => value@.text(),
            Expr::Unary { operator, right } => "("@ + operator.lexeme@ + " "@ + right.rendered()
                + ")"@,
            Expr::Variable { id, name } => "(var "@ + name.lexeme@ + ")"@,
        }
    }

    /// The expression as text, in prefix form with parentheses.
    pub fn to_string(&self) -> (r: String)
        ensures
            r@ == self.rendered(),
        decreases self, 0nat,
    {
        match self {
            Expr::Assign { id, name, value } => {
                let mut out = String::from_str("(= ");
                out.append(name.lexeme.as_str());
                out.append(" ");
                out.append(value.to_string().as_str());
                out.append(")");
                out
            },
            Expr::Binary { left, operator, right } => {
                let mut out = String::from_str("(");
                out.append(operator.lexeme.as_str());
                out.append(" ");
                out.append(left.to_string().as_str());
                out.append(" ");
                out.append(right.to_string().as_str());
                out.append(")");
                out
            },
            Expr::Call { callee, arguments } => {
                let mut out = String::from_str("(call ");
                out.append(callee.to_string().as_str());
                out.append(render_list(arguments).as_str());
                out.append(")");
                out
            },
            Expr::Grouping { expression } => {
                let mut out = String::from_str("(group ");
                out.append(expression.to_string().as_str());
                out.append(")");
                out
            },
            Expr::Literal { value } => value.to_string(),
            Expr::Unary { operator, right } => {
                let mut out = String::from_str("(");
                out.append(operator.lexeme.as_str());
                out.append(" ");
                out.append(right.to_string().as_str());
                out.append(")");
                out
            },
            Expr::Variable { id, name } => {
                let mut out = String::from_str("(var ");
                out.append(name.lexeme.as_str());
                out.append(")");
                out
            },
        }
    }
}

/// The expressions of `es` as text, each behind a space.
pub fn render_list(es: &Vec<Expr>) -> (r: String)
    ensures
        r@ == rendered_list(*es, 0),
    decreases es, es.len(),
{
    let mut out = String::new();
    let mut i: usize = 0;
    while i < es.len()
        invariant
            i <= es.len(),
            out@ + rendered_list(*es, i as nat) == rendered_list(*es, 0),
        decreases es.len() - i,
    {
        let ghost before = out@;
        out.append(" ");
        out.append(es[i].to_string().as_str());
        proof {
            assert(out@ + rendered_list(*es, (i + 1) as nat) =~= before + rendered_list(
                *es,
                i as nat,
            ));
        }
        i = i + 1;
    }
    assert(out@ + Seq::<char>::empty() =~= out@);
    out
}

} // verus!
