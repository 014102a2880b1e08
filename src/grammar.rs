use vstd::prelude::*;

use crate::text::{ends_with_brackets, str_eq};

verus! {

/// The declared type of a field: a primitive scalar, a primitive array, or a
/// reference (`Custom`) to another model, possibly as an array.
#[derive(Clone, Copy, Debug, PartialEq, Eq, Structural)]
pub enum AttributeType {
    Byte,
    ByteArray,
    Int,
    IntArray,
    Float,
    FloatArray,
    Boolean,
    BooleanArray,
    String,
    StringArray,
    Custom,
    CustomArray,
}

/// A lexical token of the schema language.
#[derive(Clone, Debug, PartialEq)]
pub enum Token {
    Keyword(String),
    Identifier(String),
    Attribute(AttributeType),
    LBracket,
    RBracket,
    Comma,
}

/// Mathematical model of a token: the same variants, with text as characters.
pub enum TokenView {
    Keyword(Seq<char>),
    Identifier(Seq<char>),
    Attribute(AttributeType),
    LBracket,
    RBracket,
    Comma,
}

impl View for Token {
    type V = TokenView;

    open spec fn view(&self) -> TokenView {
        match self {
            Token::Keyword(s) => TokenView::Keyword(s@),
            Token::Identifier(s) => TokenView::Identifier(s@),
            Token::Attribute(a) => TokenView::Attribute(*a),
            Token::LBracket => TokenView::LBracket,
            Token::RBracket => TokenView::RBracket,
            Token::Comma => TokenView::Comma,
        }
    }
}

pub open spec fn tokens_view(ts: Seq<Token>) -> Seq<TokenView> {
    ts.map_values(|t: Token| t@)
}

/// Whether two tokens are of the same variant, whatever their payloads.
pub open spec fn same_kind_spec(a: TokenView, b: TokenView) -> bool {
    match (a, b) {
        (TokenView::Keyword(_), TokenView::Keyword(_)) => true,
        (TokenView::Identifier(_), TokenView::Identifier(_)) => true,
        (TokenView::Attribute(_), TokenView::Attribute(_)) => true,
        (TokenView::LBracket, TokenView::LBracket) => true,
        (TokenView::RBracket, TokenView::RBracket) => true,
        (TokenView::Comma, TokenView::Comma) => true,
        _ => false,
    }
}

impl Token {
    /// Structural comparison: tokens match when their variants match.
    pub fn same_kind(&self, other: &Token) -> (r: bool)
        ensures
            r == same_kind_spec(self@, other@),
    {
        match (self, other) {
            (Token::Keyword(_), Token::Keyword(_)) => true,
            (Token::Identifier(_), Token::Identifier(_)) => true,
            (Token::Attribute(_), Token::Attribute(_)) => true,
            (Token::LBracket, Token::LBracket) => true,
            (Token::RBracket, Token::RBracket) => true,
            (Token::Comma, Token::Comma) => true,
            _ => false,
        }
    }
}

/// One typed member of a model.
#[derive(Clone, Debug, PartialEq)]
pub struct NodeField {
    pub attribute_type: AttributeType,
    pub is_nullable: bool,
    pub name: String,
}

/// One model definition: a name and its fields in declaration order.
#[derive(Clone, Debug, PartialEq)]
pub struct Node {
    pub name: String,
    pub fields: Vec<NodeField>,
}

pub struct FieldView {
    pub name: Seq<char>,
    pub attribute_type: AttributeType,
    pub is_nullable: bool,
}

pub struct NodeView {
    pub name: Seq<char>,
    pub fields: Seq<FieldView>,
}

impl View for NodeField {
    type V = FieldView;

    open spec fn view(&self) -> FieldView {
        FieldView { name: self.name@, attribute_type: self.attribute_type, is_nullable: self.is_nullable }
    }
}

pub open spec fn fields_view(fs: Seq<NodeField>) -> Seq<FieldView> {
    fs.map_values(|f: NodeField| f@)
}

impl View for Node {
    type V = NodeView;

    open spec fn view(&self) -> NodeView {
        NodeView { name: self.name@, fields: fields_view(self.fields@) }
    }
}

pub open spec fn nodes_view(ns: Seq<Node>) -> Seq<NodeView> {
    ns.map_values(|n: Node| n@)
}

/// The reserved word that opens a model definition.
pub open spec fn keyword_text() -> Seq<char> {
    "model"@
}

/// Whether `input` is the reserved word `model`.
pub fn is_keyword(input: &String) -> (r: bool)
    ensures
        r == (input@ == keyword_text()),
{
    str_eq(input.as_str(), "model")
}

/// The primitive scalar kind that a literal names, if any.
pub open spec fn scalar_of(w: Seq<char>) -> Option<AttributeType> {
    if w == "byte"@ {
        Some(AttributeType::Byte)
    } else if w == "int"@ {
        Some(AttributeType::Int)
    } else if w == "float"@ {
        Some(AttributeType::Float)
    } else if w == "boolean"@ {
        Some(AttributeType::Boolean)
    } else if w == "string"@ {
        Some(AttributeType::String)
    } else {
        None
    }
}

/// The array counterpart of a kind; array kinds map to themselves.
pub open spec fn array_of(a: AttributeType) -> AttributeType {
    match a {
        AttributeType::Byte => AttributeType::ByteArray,
        AttributeType::Int => AttributeType::IntArray,
        AttributeType::Float => AttributeType::FloatArray,
        AttributeType::Boolean => AttributeType::BooleanArray,
        AttributeType::String => AttributeType::StringArray,
        AttributeType::Custom => AttributeType::CustomArray,
        _ => a,
    }
}

pub open spec fn brackets_text() -> Seq<char> {
    "[]"@
}

/// Whether a word carries the array suffix `[]`.
pub open spec fn has_array_suffix(w: Seq<char>) -> bool {
    w.len() >= 2 && w[w.len() - 2] == '[' && w[w.len() - 1] == ']'
}

/// The word with its last two characters removed.
pub open spec fn without_suffix(w: Seq<char>) -> Seq<char> {
    w.subrange(0, w.len() - 2)
}

/// Whether a word is one of the ten primitive type literals.
pub open spec fn is_primitive_literal(w: Seq<char>) -> bool {
    scalar_of(w) is Some || (has_array_suffix(w) && scalar_of(without_suffix(w)) is Some)
}

/// The type that a word denotes: a primitive (scalar or array) when the word
/// is in the table, else a reference to another model, an array one when the
/// word ends in `[]`.
pub open spec fn attribute_of(w: Seq<char>) -> AttributeType {
    if scalar_of(w) is Some {
        scalar_of(w)->0
    } else if has_array_suffix(w) {
        if scalar_of(without_suffix(w)) is Some {
            array_of(scalar_of(without_suffix(w))->0)
        } else {
            AttributeType::CustomArray
        }
    } else {
        AttributeType::Custom
    }
}

fn scalar_lookup(input: &str) -> (r: Option<AttributeType>)
    ensures
        r == scalar_of(input@),
{
    if str_eq(input, "byte") {
        Some(AttributeType::Byte)
    } else if str_eq(input, "int") {
        Some(AttributeType::Int)
    } else if str_eq(input, "float") {
        Some(AttributeType::Float)
    } else if str_eq(input, "boolean") {
        Some(AttributeType::Boolean)
    } else if str_eq(input, "string") {
        Some(AttributeType::String)
    } else {
        None
    }
}

fn to_array(a: AttributeType) -> (r: AttributeType)
    ensures
        r == array_of(a),
{
    match a {
        AttributeType::Byte => AttributeType::ByteArray,
        AttributeType::Int => AttributeType::IntArray,
        AttributeType::Float => AttributeType::FloatArray,
        AttributeType::Boolean => AttributeType::BooleanArray,
        AttributeType::String => AttributeType::StringArray,
        AttributeType::Custom => AttributeType::CustomArray,
        _ => a,
    }
}

/// Whether `input` is one of the primitive type literals, scalar or array.
pub fn is_attribute(input: &String) -> (r: bool)
    ensures
        r == is_primitive_literal(input@),
{
    let s = input.as_str();
    if scalar_lookup(s).is_some() {
        return true;
    }
    if !ends_with_brackets(s) {
        return false;
    }
    let n = s.unicode_len();
    scalar_lookup(s.substring_char(0, n - 2)).is_some()
}

/// Resolves a type literal; never fails, as unknown words are references.
pub fn match_attribute(input: String) -> (r: AttributeType)
    ensures
        r == attribute_of(input@),
{
    let s = input.as_str();
    match scalar_lookup(s) {
        Some(a) => a,
        None => {
            if ends_with_brackets(s) {
                let n = s.unicode_len();
                match scalar_lookup(s.substring_char(0, n - 2)) {
                    Some(a) => to_array(a),
                    None => AttributeType::CustomArray,
                }
            } else {
                AttributeType::Custom
            }
        },
    }
}

/// A word outside the primitive table without the array suffix denotes a
/// reference to another model, and the same word followed by `[]` an array
/// of such references.
pub proof fn lemma_unknown_word_is_custom(w: Seq<char>)
    requires
        scalar_of(w) is None,
        !has_array_suffix(w),
    ensures
        attribute_of(w) == AttributeType::Custom,
        attribute_of(w + brackets_text()) == AttributeType::CustomArray,
{
    reveal_strlit("[]");
    reveal_strlit("byte");
    reveal_strlit("int");
    reveal_strlit("float");
    reveal_strlit("boolean");
    reveal_strlit("string");
    let v = w + brackets_text();
    assert(has_array_suffix(v));
    assert(without_suffix(v) =~= w);
    assert(scalar_of(v) is None) by {
        assert(v[v.len() - 1] == ']');
    }
}

/// Each primitive literal followed by `[]` denotes the array counterpart of
/// that primitive, never a reference.
pub proof fn lemma_primitive_array(w: Seq<char>)
    requires
        scalar_of(w) is Some,
    ensures
        attribute_of(w + brackets_text()) == array_of(scalar_of(w)->0),
        attribute_of(w + brackets_text()) != AttributeType::Custom,
        attribute_of(w + brackets_text()) != AttributeType::CustomArray,
{
    reveal_strlit("[]");
    reveal_strlit("byte");
    reveal_strlit("int");
    reveal_strlit("float");
    reveal_strlit("boolean");
    reveal_strlit("string");
    let v = w + brackets_text();
    assert(has_array_suffix(v));
    assert(without_suffix(v) =~= w);
    assert(scalar_of(v) is None) by {
        assert(v[v.len() - 1] == ']');
    }
}

} // verus!
