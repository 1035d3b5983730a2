//! The parts of a Python syntax tree that the rules read.

use vstd::prelude::*;

use crate::text::{same_text, TextRange};

verus! {

/// The operator of a unary operation.
#[derive(Clone, Copy, Debug, PartialEq, Eq, Structural)]
pub enum UnaryOp {
    Invert,
    Not,
    UAdd,
    USub,
}

/// A name together with the place where it is written.
#[derive(Debug)]
pub struct Identifier {
    pub name: String,
    pub range: TextRange,
}

/// One `key: value` pair of a dict display; a `**value` entry has no key.
#[derive(Debug)]
pub struct DictItem {
    pub key: Option<Expr>,
    pub value: Expr,
}

/// A dict display.
#[derive(Debug)]
pub struct ExprDict {
    pub range: TextRange,
    pub items: Vec<DictItem>,
}

/// A list display.
#[derive(Debug)]
pub struct ExprList {
    pub range: TextRange,
    pub elts: Vec<Expr>,
}

/// A call. The rules look at what is called, never at the arguments.
#[derive(Debug)]
pub struct ExprCall {
    pub range: TextRange,
    pub func: Box<Expr>,
}

/// An expression.
#[derive(Debug)]
pub enum Expr {
    /// A string literal, implicit concatenations joined.
    StringLiteral { range: TextRange, text: String },
    BytesLiteral { range: TextRange },
    NumberLiteral { range: TextRange },
    BooleanLiteral { range: TextRange },
    NoneLiteral { range: TextRange },
    EllipsisLiteral { range: TextRange },
    UnaryOp { range: TextRange, op: UnaryOp, operand: Box<Expr> },
    List(ExprList),
    Tuple { range: TextRange, elts: Vec<Expr> },
    SetDisplay { range: TextRange, elts: Vec<Expr> },
    Dict(ExprDict),
    Name { range: TextRange, id: String },
    Attribute { range: TextRange, value: Box<Expr>, attr: Identifier },
    Subscript { range: TextRange, value: Box<Expr> },
    Call(ExprCall),
    /// `*value`
    Starred { range: TextRange, value: Box<Expr> },
    /// Any expression of another shape.
    Other { range: TextRange },
}

/// A statement of a class body.
#[derive(Debug)]
pub enum Stmt {
    Assign { targets: Vec<Expr>, value: Expr },
    /// An annotated target, with the value that it is given, if it is given one.
    AnnAssign { target: Expr, value: Option<Expr> },
    FunctionDef(FunctionDef),
    /// Any statement of another shape.
    Other,
}

/// A function definition.
#[derive(Debug)]
pub struct FunctionDef {
    pub name: String,
}

/// A base of a class, with what the names in it stand for.
#[derive(Debug)]
pub struct Base {
    /// The segments of the qualified name that the base resolves to, if it resolves.
    pub qualified_name: Option<Vec<String>>,
    /// The Python builtin that the base names, if it names one.
    pub builtin: Option<String>,
}

/// A class definition.
#[derive(Debug)]
pub struct ClassDef {
    pub body: Vec<Stmt>,
    /// The positional arguments in the parentheses behind the class name, if there are
    /// parentheses.
    pub arguments: Option<Vec<Base>>,
}

/// What a scope belongs to.
#[derive(Debug)]
pub enum ScopeKind {
    Class(ClassDef),
    Function(FunctionDef),
    Module,
    /// A lambda, a comprehension, or any other scope.
    Other,
}

/// The scope that is being visited and the scopes around it.
#[derive(Debug)]
pub struct Scopes {
    pub current: ScopeKind,
    /// The scopes around the current one, innermost first.
    pub enclosing: Vec<ScopeKind>,
}

impl Expr {
    /// The place where the expression is written.
    pub open spec fn place(self) -> TextRange {
        match self {
            Expr::StringLiteral { range, .. } => range,
            Expr::BytesLiteral { range } => range,
            Expr::NumberLiteral { range } => range,
            Expr::BooleanLiteral { range } => range,
            Expr::NoneLiteral { range } => range,
            Expr::EllipsisLiteral { range } => range,
            Expr::UnaryOp { range, .. } => range,
            Expr::List(list) => list.range,
            Expr::Tuple { range, .. } => range,
            Expr::SetDisplay { range, .. } => range,
            Expr::Dict(dict) => dict.range,
            Expr::Name { range, .. } => range,
            Expr::Attribute { range, .. } => range,
            Expr::Subscript { range, .. } => range,
            Expr::Call(call) => call.range,
            Expr::Starred { range, .. } => range,
            Expr::Other { range } => range,
        }
    }

    /// The expression is the plain name `id`.
    pub open spec fn is_name(self, id: Seq<char>) -> bool {
        self matches Expr::Name { id: found, .. } && found@ == id
    }

    /// The expression is the string literal `text`.
    pub open spec fn is_string(self, text: Seq<char>) -> bool {
        self matches Expr::StringLiteral { text: found, .. } && found@ == text
    }

    /// The place where the expression is written.
    pub fn range(&self) -> (range: TextRange)
        ensures
            range == self.place(),
    {
        match self {
            Expr::StringLiteral { range, .. } => *range,
            Expr::BytesLiteral { range } => *range,
            Expr::NumberLiteral { range } => *range,
            Expr::BooleanLiteral { range } => *range,
            Expr::NoneLiteral { range } => *range,
            Expr::EllipsisLiteral { range } => *range,
            Expr::UnaryOp { range, .. } => *range,
            Expr::List(list) => list.range,
            Expr::Tuple { range, .. } => *range,
            Expr::SetDisplay { range, .. } => *range,
            Expr::Dict(dict) => dict.range,
            Expr::Name { range, .. } => *range,
            Expr::Attribute { range, .. } => *range,
            Expr::Subscript { range, .. } => *range,
            Expr::Call(call) => call.range,
            Expr::Starred { range, .. } => *range,
            Expr::Other { range } => *range,
        }
    }

    /// Whether the expression is the plain name `id`.
    pub(crate) fn names(&self, id: &str) -> (yes: bool)
        ensures
            yes == self.is_name(id@),
    {
        match self {
            Expr::Name { id: found, .. } => same_text(found.as_str(), id),
            _ => false,
        }
    }

    /// Whether the expression is the string literal `text`.
    pub(crate) fn spells(&self, text: &str) -> (yes: bool)
        ensures
            yes == self.is_string(text@),
    {
        match self {
            Expr::StringLiteral { text: found, .. } => same_text(found.as_str(), text),
            _ => false,
        }
    }
}

impl DictItem {
    /// The item does not end before it starts.
    pub open spec fn wf(self) -> bool {
        self.place().wf()
    }

    /// From the start of the key, or of the value where there is no key, to the end of the
    /// value.
    pub open spec fn place(self) -> TextRange {
        TextRange {
            start: match self.key {
                Some(key) => key.place().start,
                None => self.value.place().start,
            },
            end: self.value.place().end,
        }
    }

    /// Whether the item does not end before it starts.
    pub(crate) fn is_ordered(&self) -> (ordered: bool)
        ensures
            ordered == self.wf(),
    {
        let start: u32 = match &self.key {
            Some(key) => key.range().start,
            None => self.value.range().start,
        };
        start <= self.value.range().end
    }

    /// From the start of the key, or of the value where there is no key, to the end of the
    /// value.
    pub fn range(&self) -> (range: TextRange)
        requires
            self.wf(),
        ensures
            range == self.place(),
    {
        let start: u32 = match &self.key {
            Some(key) => key.range().start,
            None => self.value.range().start,
        };
        TextRange::new(start, self.value.range().end)
    }
}

/// The segments of the dotted name that `expr` spells, if it is a chain of attribute accesses
/// rooted at a plain name.
pub open spec fn name_segments(expr: Expr) -> Option<Seq<Seq<char>>>
    decreases expr,
{
    match expr {
        Expr::Name { id, .. } => Some(seq![id@]),
        Expr::Attribute { value, attr, .. } => match name_segments(*value) {
            Some(segments) => Some(segments.push(attr.name@)),
            None => None,
        },
        _ => None,
    }
}

/// The segments with a dot between each two.
pub open spec fn dotted(segments: Seq<Seq<char>>) -> Seq<char>
    decreases segments.len(),
{
    if segments.len() == 0 {
        Seq::empty()
    } else if segments.len() == 1 {
        segments[0]
    } else {
        dotted(segments.drop_last()) + "."@ + segments.last()
    }
}

proof fn lemma_name_segments_not_empty(expr: Expr)
    ensures
        name_segments(expr) matches Some(segments) ==> segments.len() > 0,
    decreases expr,
{
    if let Expr::Attribute { value, .. } = expr {
        lemma_name_segments_not_empty(*value);
    }
}

/// Renders `expr` as a dotted name (`self.env.cr`) if it is a chain of attribute accesses rooted
/// at a plain name; returns `None` for anything else (calls, subscripts, and so on).
pub fn dotted_name(expr: &Expr) -> (name: Option<String>)
    ensures
        name is Some <==> name_segments(*expr) is Some,
        name matches Some(text) ==> text@ == dotted(name_segments(*expr)->0),
    decreases expr,
{
    match expr {
        Expr::Name { id, .. } => Some(id.clone()),
        Expr::Attribute { value, attr, .. } => {
            match dotted_name(value) {
                Some(head) => {
                    proof {
                        lemma_name_segments_not_empty(**value);
                        let segments = name_segments(**value)->0;
                        assert(segments.push(attr.name@).drop_last() == segments);
                    }
                    Some(head.concat(".").concat(attr.name.as_str()))
                },
                None => None,
            }
        },
        _ => None,
    }
}

/// The expressions that denote a database cursor by default.
///
/// Shared by the rules that ask whether an expression is a cursor, so that their defaults cannot
/// disagree.
pub const CURSOR_EXPRS: [&'static str; 4] = ["cr", "self._cr", "self.cr", "self.env.cr"];

/// The field type that `func` accesses on the plain name `fields`.
pub open spec fn field_type(func: Expr) -> Option<Seq<char>> {
    match func {
        Expr::Attribute { value, attr, .. } => if value.is_name("fields"@) {
            Some(attr.name@)
        } else {
            None
        },
        _ => None,
    }
}

/// Returns the field type (`Many2one`) if `func` is an access on `fields`, as in
/// `fields.Many2one(...)`.
pub fn odoo_field_type(func: &Expr) -> (kind: Option<&str>)
    ensures
        kind is Some <==> field_type(*func) is Some,
        kind matches Some(text) ==> text@ == field_type(*func)->0,
{
    match func {
        Expr::Attribute { value, attr, .. } => {
            if value.names("fields") {
                Some(attr.name.as_str())
            } else {
                None
            }
        },
        _ => None,
    }
}

/// A plain name is rendered as it is, an attribute access as what it is an access on, a dot and the
/// attribute, and nothing else is rendered.
pub proof fn law_dotted_names_grow_by_attributes(expr: Expr)
    ensures
        match expr {
            Expr::Name { id, .. } => name_segments(expr) matches Some(segments) && dotted(segments)
                == id@,
            Expr::Attribute { value, attr, .. } => match (name_segments(expr), name_segments(*value)) {
                (Some(longer), Some(segments)) => dotted(longer) == dotted(segments) + "."@
                    + attr.name@,
                (None, None) => true,
                _ => false,
            },
            _ => name_segments(expr) is None,
        },
{
    if let Expr::Attribute { value, attr, .. } = expr {
        lemma_name_segments_not_empty(*value);
        if let Some(segments) = name_segments(*value) {
            assert(segments.push(attr.name@).drop_last() == segments);
        }
    }
}

/// Exactly an access on the plain name `fields` has a field type, which is the attribute.
pub proof fn law_field_types_are_attributes_of_fields(func: Expr)
    ensures
        field_type(func) is Some ==> func is Attribute,
        func matches Expr::Attribute { value, attr, .. } ==> match *value {
            Expr::Name { id, .. } => if id@ == "fields"@ {
                field_type(func) == Some(attr.name@)
            } else {
                field_type(func) is None
            },
            _ => field_type(func) is None,
        },
{
}

/// An expression is written at the range that it holds, whatever its shape is.
pub proof fn law_expressions_stand_at_their_ranges(expr: Expr, range: TextRange)
    requires
        match expr {
            Expr::StringLiteral { range: found, .. } | Expr::BytesLiteral { range: found }
            | Expr::NumberLiteral { range: found } | Expr::BooleanLiteral { range: found }
            | Expr::NoneLiteral { range: found } | Expr::EllipsisLiteral { range: found }
            | Expr::UnaryOp { range: found, .. } | Expr::Tuple { range: found, .. }
            | Expr::SetDisplay { range: found, .. } | Expr::Name { range: found, .. }
            | Expr::Attribute { range: found, .. } | Expr::Subscript { range: found, .. }
            | Expr::Starred { range: found, .. } | Expr::Other { range: found } => found == range,
            Expr::List(list) => list.range == range,
            Expr::Dict(dict) => dict.range == range,
            Expr::Call(call) => call.range == range,
        },
    ensures
        expr.place() == range,
{
}

/// A dict item ends where its value ends, and starts where its key starts or, without one, where
/// its value starts.
pub proof fn law_items_span_key_and_value(item: DictItem)
    ensures
        item.place().end == item.value.place().end,
        item.key matches Some(key) ==> item.place().start == key.place().start,
        item.key is None ==> item.place().start == item.value.place().start,
        item.wf() <==> item.place().start <= item.place().end,
{
}

} // verus!
