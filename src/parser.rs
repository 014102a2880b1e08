use vstd::prelude::*;

use crate::grammar::{fields_view, nodes_view, tokens_view, FieldView, Node, NodeField, NodeView, Token, TokenView};

verus! {

/// Why a token sequence is not a list of model definitions.
#[derive(Clone, Copy, Debug, PartialEq, Eq, Structural)]
pub enum ParseError {
    /// There are no tokens at all.
    Empty,
    /// A definition does not start with the keyword.
    MissingKeyword,
    /// The keyword is not followed by the model's name.
    MissingIdentifier,
    /// The model's name is not followed by `{`.
    MissingOpenBrace,
    /// A definition does not end with `}`.
    MissingCloseBrace,
    /// The tokens inside the braces are not name, type, optional comma groups.
    FieldPattern,
}

/// Number of tokens from index `i` on before the next `}` (or the end).
pub open spec fn until_close(toks: Seq<TokenView>, i: int) -> nat
    decreases toks.len() - i,
{
    if 0 <= i < toks.len() && !(toks[i] is RBracket) {
        1 + until_close(toks, i + 1)
    } else {
        0
    }
}

/// End (exclusive) of the chunk that starts at `i`: just past the next `}`,
/// or the end of the tokens when no `}` follows.
pub open spec fn chunk_end(toks: Seq<TokenView>, i: int) -> int {
    let c = i + until_close(toks, i);
    if c < toks.len() {
        c + 1
    } else {
        toks.len() as int
    }
}

/// Fields of the tokens in `[i, end)`, appended to `acc`: each field is an
/// identifier and a type, optionally followed by a comma.
pub open spec fn parse_fields(toks: Seq<TokenView>, i: int, end: int, acc: Seq<FieldView>) -> Result<
    Seq<FieldView>,
    ParseError,
>
    decreases end - i,
{
    if i >= end {
        Ok(acc)
    } else if i + 1 < end && toks[i] is Identifier && toks[i + 1] is Attribute {
        let f = FieldView {
            name: toks[i]->Identifier_0,
            attribute_type: toks[i + 1]->Attribute_0,
            is_nullable: false,
        };
        let next = if i + 2 < end && toks[i + 2] is Comma {
            i + 3
        } else {
            i + 2
        };
        parse_fields(toks, next, end, acc.push(f))
    } else {
        Err(ParseError::FieldPattern)
    }
}

/// The model defined by the chunk `[start, end)` of the tokens.
pub open spec fn parse_chunk(toks: Seq<TokenView>, start: int, end: int) -> Result<NodeView, ParseError> {
    let n = end - start;
    if n < 1 || !(toks[start] is Keyword) {
        Err(ParseError::MissingKeyword)
    } else if n < 2 || !(toks[start + 1] is Identifier) {
        Err(ParseError::MissingIdentifier)
    } else if n < 3 || !(toks[start + 2] is LBracket) {
        Err(ParseError::MissingOpenBrace)
    } else if n < 4 || !(toks[end - 1] is RBracket) {
        Err(ParseError::MissingCloseBrace)
    } else {
        match parse_fields(toks, start + 3, end - 1, seq![]) {
            Ok(fs) => Ok(NodeView { name: toks[start + 1]->Identifier_0, fields: fs }),
            Err(e) => Err(e),
        }
    }
}

/// The models of the chunks from index `i` on, appended to `acc`; the first
/// malformed chunk decides the error.
pub open spec fn parse_from(toks: Seq<TokenView>, i: int, acc: Seq<NodeView>) -> Result<
    Seq<NodeView>,
    ParseError,
>
    decreases toks.len() - i,
{
    if i < 0 || i >= toks.len() {
        Ok(acc)
    } else {
        let end = chunk_end(toks, i);
        match parse_chunk(toks, i, end) {
            Ok(node) => parse_from(toks, end, acc.push(node)),
            Err(e) => Err(e),
        }
    }
}

/// The models that a token sequence defines; no tokens at all is an error.
pub open spec fn parse_spec(toks: Seq<TokenView>) -> Result<Seq<NodeView>, ParseError> {
    if toks.len() == 0 {
        Err(ParseError::Empty)
    } else {
        parse_from(toks, 0, seq![])
    }
}

proof fn lemma_until_close_bound(toks: Seq<TokenView>, i: int)
    requires
        0 <= i <= toks.len(),
    ensures
        i + until_close(toks, i) <= toks.len(),
        i + until_close(toks, i) < toks.len() ==> toks[i + until_close(toks, i)] is RBracket,
    decreases toks.len() - i,
{
    if i < toks.len() && !(toks[i] is RBracket) {
        lemma_until_close_bound(toks, i + 1);
    }
}

/// Index of the first `}` at or after `i`, or the length when there is none.
fn find_close(tokens: &Vec<Token>, i: usize) -> (c: usize)
    requires
        i <= tokens@.len(),
    ensures
        c == i + until_close(tokens_view(tokens@), i as int),
{
    let ghost t = tokens_view(tokens@);
    let mut c: usize = i;
    while c < tokens.len()
        invariant
            i <= c <= tokens@.len(),
            t == tokens_view(tokens@),
            c + until_close(t, c as int) == i + until_close(t, i as int),
        decreases tokens@.len() - c,
    {
        if let Token::RBracket = &tokens[c] {
            return c;
        }
        c = c + 1;
    }
    c
}

/// Fields of the tokens in `[start, end)`.
fn parse_field_list(tokens: &Vec<Token>, start: usize, end: usize) -> (r: Result<Vec<NodeField>, ParseError>)
    requires
        start <= end <= tokens@.len(),
    ensures
        match (r, parse_fields(tokens_view(tokens@), start as int, end as int, seq![])) {
            (Ok(fs), Ok(v)) => fields_view(fs@) == v,
            (Err(e), Err(x)) => e == x,
            _ => false,
        },
{
    let ghost t = tokens_view(tokens@);
    let mut fields: Vec<NodeField> = Vec::new();
    let mut i: usize = start;
    assert(fields_view(fields@) =~= seq![]);
    while i < end
        invariant
            start <= i,
            end <= tokens@.len(),
            t == tokens_view(tokens@),
            parse_fields(t, i as int, end as int, fields_view(fields@)) == parse_fields(
                t,
                start as int,
                end as int,
                seq![],
            ),
        decreases end - i,
    {
        if i + 1 >= end {
            return Err(ParseError::FieldPattern);
        }
        let name = match &tokens[i] {
            Token::Identifier(s) => s.clone(),
            _ => {
                return Err(ParseError::FieldPattern);
            },
        };
        let attribute_type = match &tokens[i + 1] {
            Token::Attribute(a) => *a,
            _ => {
                return Err(ParseError::FieldPattern);
            },
        };
        let field = NodeField { attribute_type, is_nullable: false, name };
        let ghost before = fields_view(fields@);
        fields.push(field);
        assert(fields_view(fields@) =~= before.push(field@));
        let comma = i + 2 < end && match &tokens[i + 2] {
            Token::Comma => true,
            _ => false,
        };
        i = if comma {
            i + 3
        } else {
            i + 2
        };
    }
    Ok(fields)
}

/// The model defined by the chunk `[start, end)` of the tokens.
fn parse_node(tokens: &Vec<Token>, start: usize, end: usize) -> (r: Result<Node, ParseError>)
    requires
        start < end <= tokens@.len(),
    ensures
        match (r, parse_chunk(tokens_view(tokens@), start as int, end as int)) {
            (Ok(node), Ok(v)) => node@ == v,
            (Err(e), Err(x)) => e == x,
            _ => false,
        },
{
    let n = end - start;
    match &tokens[start] {
        Token::Keyword(_) => {},
        _ => {
            return Err(ParseError::MissingKeyword);
        },
    }
    if n < 2 {
        return Err(ParseError::MissingIdentifier);
    }
    let name = match &tokens[start + 1] {
        Token::Identifier(s) => s.clone(),
        _ => {
            return Err(ParseError::MissingIdentifier);
        },
    };
    if n < 3 {
        return Err(ParseError::MissingOpenBrace);
    }
    match &tokens[start + 2] {
        Token::LBracket => {},
        _ => {
            return Err(ParseError::MissingOpenBrace);
        },
    }
    if n < 4 {
        return Err(ParseError::MissingCloseBrace);
    }
    match &tokens[end - 1] {
        Token::RBracket => {},
        _ => {
            return Err(ParseError::MissingCloseBrace);
        },
    }
    let fields = parse_field_list(tokens, start + 3, end - 1)?;
    Ok(Node { name, fields })
}

/// Splits the tokens into chunks, each ending with `}`, and turns each chunk
/// into a model; fails on no tokens and at the first malformed chunk.
pub fn parse(tokens: &Vec<Token>) -> (r: Result<Vec<Node>, ParseError>)
    ensures
        match (r, parse_spec(tokens_view(tokens@))) {
            (Ok(ns), Ok(v)) => nodes_view(ns@) == v,
            (Err(e), Err(x)) => e == x,
            _ => false,
        },
{
    let ghost t = tokens_view(tokens@);
    if tokens.len() == 0 {
        return Err(ParseError::Empty);
    }
    let mut nodes: Vec<Node> = Vec::new();
    let mut i: usize = 0;
    assert(nodes_view(nodes@) =~= seq![]);
    while i < tokens.len()
        invariant
            i <= tokens@.len(),
            t == tokens_view(tokens@),
            t.len() > 0,
            parse_from(t, i as int, nodes_view(nodes@)) == parse_spec(t),
        decreases tokens@.len() - i,
    {
        let c = find_close(tokens, i);
        proof {
            lemma_until_close_bound(t, i as int);
        }
        let end = if c < tokens.len() {
            c + 1
        } else {
            tokens.len()
        };
        let node = parse_node(tokens, i, end)?;
        let ghost before = nodes_view(nodes@);
        nodes.push(node);
        assert(nodes_view(nodes@) =~= before.push(node@));
        i = end;
    }
    Ok(nodes)
}

} // verus!
