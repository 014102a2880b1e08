use vstd::prelude::*;

pub mod grammar;
pub mod lexer;
pub mod out;
pub mod parser;
pub mod text;
pub mod validate;

use crate::grammar::{
    array_of, attribute_of, brackets_text, has_array_suffix, keyword_text, lemma_primitive_array,
    lemma_unknown_word_is_custom, nodes_view, scalar_of, without_suffix, AttributeType, FieldView,
    Node, NodeView, TokenView,
};
use crate::lexer::{
    classify, is_word_char, is_word_start, lex, lex_from, lex_spec, suffix_at, word_run, LexError,
};
use crate::out::{render, rendered, Backend};
use crate::parser::{
    chunk_end, parse, parse_chunk, parse_fields, parse_from, parse_spec, until_close, ParseError,
};
use crate::validate::{
    duplicates_of, duplicates_view, field_names, node_duplicates, repeated_names, validate,
    ValidationError,
};

verus! {

/// Why a schema could not be compiled, by stage.
#[derive(Clone, Debug, PartialEq)]
pub enum CompileError {
    Lex(LexError),
    Parse(ParseError),
    Validation(ValidationError),
}

/// Whether an error is the one that compiling `s` owes: the lexer's first
/// unexpected character, else the parser's error, else the duplicates.
pub open spec fn is_compile_error(s: Seq<char>, e: CompileError) -> bool {
    match lex_spec(s) {
        Err((c, line, col)) => e matches CompileError::Lex(x) && x.character == c && x.line == line
            && x.column == col,
        Ok(t) => match parse_spec(t) {
            Err(p) => e == CompileError::Parse(p),
            Ok(ns) => duplicates_of(ns).len() > 0 && (e matches CompileError::Validation(v)
                && duplicates_view(v.duplicates@) == duplicates_of(ns)),
        },
    }
}

/// The models that a schema text defines, when it lexes, parses and has no
/// repeated field name.
pub open spec fn models_of(s: Seq<char>) -> Option<Seq<NodeView>> {
    match lex_spec(s) {
        Err(_) => None,
        Ok(t) => match parse_spec(t) {
            Err(_) => None,
            Ok(ns) => if duplicates_of(ns).len() == 0 {
                Some(ns)
            } else {
                None
            },
        },
    }
}

/// Lexes, parses and validates a schema text.
pub fn build_models(source: &str) -> (r: Result<Vec<Node>, CompileError>)
    requires
        source@.len() < usize::MAX,
    ensures
        match r {
            Ok(ns) => models_of(source@) == Some(nodes_view(ns@)),
            Err(e) => models_of(source@) is None && is_compile_error(source@, e),
        },
{
    let tokens = match lex(source) {
        Ok(t) => t,
        Err(e) => {
            return Err(CompileError::Lex(e));
        },
    };
    let nodes = match parse(&tokens) {
        Ok(n) => n,
        Err(e) => {
            return Err(CompileError::Parse(e));
        },
    };
    match validate(nodes) {
        Ok(n) => Ok(n),
        Err(e) => Err(CompileError::Validation(e)),
    }
}

/// Compiles a schema text into the chosen backend's source text.
pub fn compile(source: &str, backend: Backend) -> (r: Result<String, CompileError>)
    requires
        source@.len() < usize::MAX,
    ensures
        match r {
            Ok(text) => models_of(source@) is Some && text@ == rendered(backend, models_of(source@)->0),
            Err(e) => models_of(source@) is None && is_compile_error(source@, e),
        },
{
    let nodes = build_models(source)?;
    Ok(render(backend, &nodes))
}

/// A word without the array suffix: an ASCII letter, then word characters.
pub open spec fn is_plain_word(w: Seq<char>) -> bool {
    w.len() > 0 && is_word_start(w[0]) && forall|k: int| 1 <= k < w.len() ==> is_word_char(#[trigger] w[k])
}

/// A word that the lexer reads whole: a plain word, possibly followed by `[]`.
pub open spec fn is_word(w: Seq<char>) -> bool {
    is_plain_word(w) || (has_array_suffix(w) && is_plain_word(without_suffix(w)))
}

/// The text `model X { f T }` of a model with one field.
pub open spec fn single_field_source(x: Seq<char>, f: Seq<char>, ty: Seq<char>) -> Seq<char> {
    "model "@ + x + " { "@ + f + " "@ + ty + " }"@
}

/// The model `X` with the one field `f` of the type that `ty` denotes.
pub open spec fn single_field_model(x: Seq<char>, f: Seq<char>, ty: Seq<char>) -> NodeView {
    NodeView {
        name: x,
        fields: seq![FieldView { name: f, attribute_type: attribute_of(ty), is_nullable: false }],
    }
}

proof fn lemma_word_run_exact(s: Seq<char>, j: int, e: int)
    requires
        0 <= j <= e < s.len(),
        forall|k: int| j <= k < e ==> is_word_char(#[trigger] s[k]),
        !is_word_char(s[e]),
    ensures
        word_run(s, j) == e - j,
    decreases e - j,
{
    if j < e {
        lemma_word_run_exact(s, j + 1, e);
    }
}

proof fn lemma_lex_word(s: Seq<char>, i: int, w: Seq<char>, toks: Seq<TokenView>, line: int, col: int)
    requires
        0 <= i,
        i + w.len() < s.len(),
        s.subrange(i, i + w.len()) == w,
        is_word(w),
        !is_word_char(s[i + w.len()]),
        s[i + w.len()] != '[',
    ensures
        lex_from(s, i, toks, line, col) == lex_from(
            s,
            i + w.len(),
            toks.push(classify(w, toks)),
            line,
            col + w.len(),
        ),
{
    assert(s[i] == w[0]);
    if is_plain_word(w) {
        let e = i + w.len();
        assert forall|k: int| i + 1 <= k < e implies is_word_char(#[trigger] s[k]) by {
            assert(s[k] == w[k - i]);
        }
        lemma_word_run_exact(s, i + 1, e);
        assert(!suffix_at(s, e));
    } else {
        let b = without_suffix(w);
        let e = i + b.len();
        assert forall|k: int| i + 1 <= k < e implies is_word_char(#[trigger] s[k]) by {
            assert(s[k] == w[k - i]);
            assert(b[k - i] == w[k - i]);
        }
        assert(s[e] == w[w.len() - 2]);
        assert(s[e + 1] == w[w.len() - 1]);
        assert(b[0] == w[0]);
        lemma_word_run_exact(s, i + 1, e);
        assert(suffix_at(s, e));
    }
}

/// Lexing and then parsing the text of a model with one field gives back
/// that model: its name, and one field with the declared name and the type
/// that the type word denotes; the text also passes validation.
#[verifier::rlimit(60)]
pub proof fn lemma_single_field_round_trip(x: Seq<char>, f: Seq<char>, ty: Seq<char>)
    requires
        is_word(x),
        is_word(f),
        is_word(ty),
        x != keyword_text(),
        f != keyword_text(),
        ty != keyword_text(),
    ensures
        lex_spec(single_field_source(x, f, ty)) matches Ok(t) && parse_spec(t) == Ok::<
            Seq<NodeView>,
            ParseError,
        >(seq![single_field_model(x, f, ty)]),
        models_of(single_field_source(x, f, ty)) == Some(seq![single_field_model(x, f, ty)]),
{
    reveal_strlit("model ");
    reveal_strlit("model");
    reveal_strlit(" { ");
    reveal_strlit(" ");
    reveal_strlit(" }");
    let s = single_field_source(x, f, ty);
    let kw = keyword_text();
    let a: int = 6 + x.len() as int;
    let b: int = a + 3 + f.len();
    let c: int = b + 1 + ty.len();
    assert(s.len() == c + 2);
    assert(s.subrange(0, 5) =~= kw);
    assert(s[5] == ' ');
    assert(s.subrange(6, a) =~= x);
    assert(s[a] == ' ');
    assert(s[a + 1] == '{');
    assert(s[a + 2] == ' ');
    assert(s.subrange(a + 3, b) =~= f);
    assert(s[b] == ' ');
    assert(s.subrange(b + 1, c) =~= ty);
    assert(s[c] == ' ');
    assert(s[c + 1] == '}');
    assert(is_plain_word(kw)) by {
        assert(kw[0] == 'm');
    }
    let t0 = seq![TokenView::Keyword(kw)];
    let t1 = t0.push(TokenView::Identifier(x));
    let t2 = t1.push(TokenView::LBracket);
    let t3 = t2.push(TokenView::Identifier(f));
    let t4 = t3.push(TokenView::Attribute(attribute_of(ty)));
    let t5 = t4.push(TokenView::RBracket);
    lemma_lex_word(s, 0, kw, seq![], 1, 1);
    assert(seq![].push(classify(kw, seq![])) =~= t0);
    lemma_lex_word(s, 6, x, t0, 1, 7);
    assert(classify(x, t0) == TokenView::Identifier(x));
    lemma_lex_word(s, a + 3, f, t2, 1, a + 4);
    assert(classify(f, t2) == TokenView::Identifier(f));
    lemma_lex_word(s, b + 1, ty, t3, 1, b + 2);
    assert(classify(ty, t3) == TokenView::Attribute(attribute_of(ty)));
    assert(lex_from(s, c, t4, 1, c + 1) == lex_from(s, c + 1, t4, 1, c + 2));
    assert(lex_from(s, c + 1, t4, 1, c + 2) == lex_from(s, c + 2, t5, 1, c + 3));
    assert(lex_from(s, b, t3, 1, b + 1) == lex_from(s, b + 1, t3, 1, b + 2));
    assert(lex_from(s, a, t1, 1, a + 1) == lex_from(s, a + 1, t1, 1, a + 2));
    assert(lex_from(s, a + 1, t1, 1, a + 2) == lex_from(s, a + 2, t2, 1, a + 3));
    assert(lex_from(s, a + 2, t2, 1, a + 3) == lex_from(s, a + 3, t2, 1, a + 4));
    assert(lex_from(s, 5, t0, 1, 6) == lex_from(s, 6, t0, 1, 7));
    assert(lex_spec(s) == Ok::<Seq<TokenView>, (char, int, int)>(t5));
    let model = single_field_model(x, f, ty);
    assert(until_close(t5, 5) == 0);
    assert(until_close(t5, 4) == 1);
    assert(until_close(t5, 3) == 2);
    assert(until_close(t5, 2) == 3);
    assert(until_close(t5, 1) == 4);
    assert(until_close(t5, 0) == 5);
    assert(chunk_end(t5, 0) == 6);
    let fv = FieldView { name: f, attribute_type: attribute_of(ty), is_nullable: false };
    assert(parse_fields(t5, 5, 5, seq![fv]) == Ok::<Seq<FieldView>, ParseError>(seq![fv]));
    assert(seq![].push(fv) =~= seq![fv]);
    assert(parse_fields(t5, 3, 5, seq![]) == Ok::<Seq<FieldView>, ParseError>(seq![fv]));
    assert(parse_chunk(t5, 0, 6) == Ok::<NodeView, ParseError>(model));
    assert(seq![].push(model) =~= seq![model]);
    assert(parse_from(t5, 6, seq![model]) == Ok::<Seq<NodeView>, ParseError>(seq![model]));
    assert(parse_spec(t5) == Ok::<Seq<NodeView>, ParseError>(seq![model]));
    let ns = seq![model];
    assert(ns.drop_last() =~= seq![]);
    let names = seq![fv].map_values(|g: FieldView| g.name);
    assert(names.drop_last() =~= seq![]);
    assert(field_names(model.fields) =~= names);
    let none: Seq<Seq<char>> = seq![];
    assert(repeated_names(none) =~= seq![]);
    assert(!none.contains(names.last()));
    assert(repeated_names(names) =~= seq![]);
    assert(duplicates_of(ns.drop_last()) =~= seq![]);
    assert(node_duplicates(model) =~= seq![]);
    assert(duplicates_of(ns).len() == 0);
}

proof fn lemma_suffixed_word(w: Seq<char>)
    requires
        is_plain_word(w),
    ensures
        is_word(w + brackets_text()),
        !has_array_suffix(w),
        w + brackets_text() != keyword_text(),
{
    reveal_strlit("[]");
    reveal_strlit("model");
    let v = w + brackets_text();
    assert(without_suffix(v) =~= w);
    if w.len() >= 2 {
        assert(is_word_char(w[w.len() - 1]));
    }
    assert(v[v.len() - 1] == ']');
    assert(keyword_text()[4] == 'l');
}

/// Declared in `model X { f T }`, a type word outside the primitive table
/// gives a field that refers to another model, and the same word followed by
/// `[]` a field holding an array of such references.
pub proof fn lemma_unknown_type_field(x: Seq<char>, f: Seq<char>, w: Seq<char>)
    requires
        is_word(x),
        is_word(f),
        is_plain_word(w),
        x != keyword_text(),
        f != keyword_text(),
        w != keyword_text(),
        scalar_of(w) is None,
    ensures
        single_field_model(x, f, w).fields[0].attribute_type == AttributeType::Custom,
        models_of(single_field_source(x, f, w)) == Some(seq![single_field_model(x, f, w)]),
        single_field_model(x, f, w + brackets_text()).fields[0].attribute_type
            == AttributeType::CustomArray,
        models_of(single_field_source(x, f, w + brackets_text())) == Some(
            seq![single_field_model(x, f, w + brackets_text())],
        ),
{
    lemma_suffixed_word(w);
    lemma_unknown_word_is_custom(w);
    lemma_single_field_round_trip(x, f, w);
    lemma_single_field_round_trip(x, f, w + brackets_text());
}

/// Declared in `model X { f T[] }` with `T` a primitive literal, the field
/// holds an array of that primitive, never a reference to another model.
pub proof fn lemma_primitive_array_field(x: Seq<char>, f: Seq<char>, w: Seq<char>)
    requires
        is_word(x),
        is_word(f),
        x != keyword_text(),
        f != keyword_text(),
        scalar_of(w) is Some,
    ensures
        single_field_model(x, f, w + brackets_text()).fields[0].attribute_type == array_of(
            scalar_of(w)->0,
        ),
        single_field_model(x, f, w + brackets_text()).fields[0].attribute_type
            != AttributeType::Custom,
        single_field_model(x, f, w + brackets_text()).fields[0].attribute_type
            != AttributeType::CustomArray,
        models_of(single_field_source(x, f, w + brackets_text())) == Some(
            seq![single_field_model(x, f, w + brackets_text())],
        ),
{
    reveal_strlit("byte");
    reveal_strlit("int");
    reveal_strlit("float");
    reveal_strlit("boolean");
    reveal_strlit("string");
    assert(is_plain_word(w)) by {
        assert forall|k: int| 1 <= k < w.len() implies is_word_char(#[trigger] w[k]) by {}
    }
    lemma_suffixed_word(w);
    lemma_primitive_array(w);
    lemma_single_field_round_trip(x, f, w + brackets_text());
}

} // verus!
