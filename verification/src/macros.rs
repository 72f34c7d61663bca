//! The derives' rules: what an annotated struct may look like, and what is generated for it.
//!
//! A struct to derive for is described by a [`DeriveInput`]: its attributes and fields as plain
//! values. What is generated is Rust source text. Reading a struct from tokens, and turning the
//! source text back into tokens, is the macro's own business.

pub mod attributes;
pub mod codegen;
pub mod extractable;
pub mod laws;
pub mod questions;
pub mod systemone;

use vstd::prelude::*;

verus! {

/// A string literal: what it stands for, and how it is written.
#[derive(Debug)]
pub struct Literal {
    pub value: String,
    pub source: String,
}

impl Clone for Literal {
    fn clone(&self) -> (r: Literal)
        ensures
            r == *self,
    {
        Literal { value: self.value.clone(), source: self.source.clone() }
    }
}

/// A token of an attribute's arguments.
#[derive(Debug)]
pub enum Token {
    /// A string literal.
    Text(Literal),
    /// An identifier.
    Name(String),
    Comma,
    Equals,
    /// Anything else.
    Other,
}

/// What follows an attribute's name.
#[derive(Debug)]
pub enum Args {
    /// Nothing.
    Absent,
    /// A value: `#[name = value]`.
    Value,
    /// A list in brackets.
    List(Vec<Token>),
}

/// An attribute of a field; its name is `None` where it is more than one identifier.
#[derive(Debug)]
pub struct Attribute {
    pub name: Option<String>,
    pub args: Args,
}

/// A field of a struct.
#[derive(Debug)]
pub struct Field {
    /// `None` for a field of a tuple.
    pub name: Option<String>,
    /// The last segment of the field's type, where that is a path.
    pub ty: Option<String>,
    pub attributes: Vec<Attribute>,
}

/// The value of a `key = value` argument.
#[derive(Debug)]
pub enum MetaValue {
    /// A string literal.
    Text(Literal),
    /// Another literal.
    OtherLiteral,
    /// An expression that is no literal.
    Expression,
}

/// An argument of a container attribute.
#[derive(Debug)]
pub enum Meta {
    /// `key = value`; the key is `None` where it is more than one identifier.
    Pair { key: Option<String>, value: MetaValue },
    /// Anything else.
    Other,
}

/// An attribute of a struct: its arguments, or why they cannot be read as such.
#[derive(Debug)]
pub struct ContainerAttribute {
    pub name: Option<String>,
    pub metas: Result<Vec<Meta>, String>,
}

/// What is derived for.
#[derive(Debug)]
pub enum Shape {
    /// A struct with named fields.
    Named(Vec<Field>),
    /// A tuple or unit struct.
    Unnamed,
    /// No struct.
    Other,
}

/// An item to derive for.
#[derive(Debug)]
pub struct DeriveInput {
    pub name: String,
    /// Whether it has generic parameters.
    pub generic: bool,
    pub attributes: Vec<ContainerAttribute>,
    pub shape: Shape,
}

/// Where in an item an error is.
#[derive(Debug, Clone, Copy, PartialEq, Eq, Structural)]
pub enum Place {
    /// The derive itself.
    CallSite,
    /// The whole item.
    Item,
    /// Its generic parameters.
    Generics,
    /// The container attribute.
    Container,
    /// An argument of the container attribute.
    Meta(usize),
    /// The key of an argument of the container attribute.
    MetaKey(usize),
    /// The value of an argument of the container attribute.
    MetaValue(usize),
    /// A field.
    Field,
    /// The type of a field.
    FieldType,
    /// An attribute of a field.
    Attribute(usize),
    /// A token of an attribute of a field, or the end of its arguments.
    Argument(usize, usize),
    /// An option of a field's choice.
    ChoiceOption(usize),
}

/// An error in an item, and the field it is in, if any.
#[derive(Debug)]
pub struct Diagnostic {
    pub message: String,
    pub at: Place,
    pub field: Option<usize>,
}

/// What a [`Diagnostic`] says.
pub struct Fault {
    pub message: Seq<char>,
    pub at: Place,
    pub field: Option<usize>,
}

impl View for Diagnostic {
    type V = Fault;

    open spec fn view(&self) -> Fault {
        Fault { message: self.message@, at: self.at, field: self.field }
    }
}

/// A fault outside any field, or in a field that is not numbered yet.
pub open spec fn fault(message: Seq<char>, at: Place) -> Fault {
    Fault { message, at, field: None }
}

/// What an operation gives: a value or a fault.
pub open spec fn verdict<T>(r: Result<T, Diagnostic>) -> Result<T, Fault> {
    match r {
        Ok(v) => Ok(v),
        Err(d) => Err(d@),
    }
}

/// What an operation that gives a text comes to.
pub open spec fn text_verdict(r: Result<String, Diagnostic>) -> Result<Seq<char>, Fault> {
    match r {
        Ok(v) => Ok(v@),
        Err(d) => Err(d@),
    }
}

impl Diagnostic {
    /// An error outside any field, or in a field that is not numbered yet.
    pub fn new(message: String, at: Place) -> (r: Diagnostic)
        ensures
            r@ == fault(message@, at),
    {
        Diagnostic { message, at, field: None }
    }

    /// What is wrong.
    pub fn message(&self) -> (r: &str)
        ensures
            r@ == self@.message,
    {
        self.message.as_str()
    }
}

} // verus!
