//! The text of tokens, as they appear in the source.
use crate::ast::Ast;
use crate::error_code::error_code_name;
use crate::identifiers::{CLOSE_CURLY, CLOSE_PAREN, EMPTY_STRING, OPEN_CURLY, OPEN_PAREN, well_known_name};
use crate::indices::AstIndex;
use crate::interner::interned;
use crate::token::{ExpressionBoundary, ExpressionToken, OperatorToken, Token};
use vstd::prelude::*;
use vstd::string::StringExecFns;

verus! {

pub open spec fn spec_open_string(b: ExpressionBoundary) -> Seq<char> {
    if b == ExpressionBoundary::CurlyBraces {
        well_known_name(OPEN_CURLY as int)
    } else if b == ExpressionBoundary::Parentheses {
        well_known_name(OPEN_PAREN as int)
    } else {
        well_known_name(EMPTY_STRING as int)
    }
}

pub open spec fn spec_close_string(b: ExpressionBoundary) -> Seq<char> {
    if b == ExpressionBoundary::CurlyBraces {
        well_known_name(CLOSE_CURLY as int)
    } else if b == ExpressionBoundary::Parentheses {
        well_known_name(CLOSE_PAREN as int)
    } else {
        well_known_name(EMPTY_STRING as int)
    }
}

impl Ast {
    /// Every pool index that a token holds is in range.
    pub open spec fn token_refs_valid(&self, t: Token) -> bool {
        let ids = interned(&self.identifiers).len();
        match t {
            Token::Expression(e) => match e {
                ExpressionToken::IntegerLiteral(l) => l < interned(&self.literals).len(),
                ExpressionToken::FieldReference(f) => f < self.fields@.len() && (self.fields@[f as int].name.0 as int) < ids,
                ExpressionToken::RawIdentifier(i) => (i.0 as int) < ids,
                ExpressionToken::ErrorTerm(_, l) => l < interned(&self.literals).len(),
                ExpressionToken::RawErrorTerm(_, l) => l < self.raw_literals@.len(),
                ExpressionToken::MissingExpression => true,
                ExpressionToken::PrefixOperator(i) => (i.0 as int) < ids,
                ExpressionToken::Open { .. } => true,
                ExpressionToken::OpenBlock { index, .. } => index < self.blocks@.len(),
            },
            Token::Operator(o) => match o {
                OperatorToken::InfixOperator(i) => (i.0 as int) < ids,
                OperatorToken::InfixAssignment(i) => (i.0 as int) < ids,
                OperatorToken::PostfixOperator(i) => (i.0 as int) < ids,
                OperatorToken::CloseBlock { index, .. } => index < self.blocks@.len(),
                _ => true,
            },
        }
    }

    /// Every token's pool indices are in range.
    pub open spec fn tokens_refs_valid(&self) -> bool {
        forall|i: int| 0 <= i < self.tokens@.len() ==> self.token_refs_valid(#[trigger] self.tokens@[i])
    }

    /// The text of a token.
    pub open spec fn spec_token_text(&self, t: Token) -> Seq<char> {
        let ids = interned(&self.identifiers);
        match t {
            Token::Expression(e) => match e {
                ExpressionToken::IntegerLiteral(l) => interned(&self.literals)[l as int],
                ExpressionToken::FieldReference(f) => ids[self.fields@[f as int].name.0 as int],
                ExpressionToken::RawIdentifier(i) => ids[i.0 as int],
                ExpressionToken::ErrorTerm(code, _) => "error("@ + error_code_name(code) + ")"@,
                ExpressionToken::RawErrorTerm(code, _) => "error("@ + error_code_name(code) + ")"@,
                ExpressionToken::MissingExpression => ""@,
                ExpressionToken::PrefixOperator(i) => ids[i.0 as int],
                ExpressionToken::Open { boundary, .. } => spec_open_string(boundary),
                ExpressionToken::OpenBlock { index, .. } => spec_open_string(self.blocks@[index as int].boundary),
            },
            Token::Operator(o) => match o {
                OperatorToken::InfixOperator(i) => ids[i.0 as int],
                OperatorToken::InfixAssignment(i) => ids[i.0 as int] + "="@,
                OperatorToken::NewlineSequence => "\\n"@,
                OperatorToken::Apply => ""@,
                OperatorToken::PostfixOperator(i) => ids[i.0 as int],
                OperatorToken::Close { boundary, .. } => spec_close_string(boundary),
                OperatorToken::CloseBlock { index, .. } => spec_close_string(self.blocks@[index as int].boundary),
            },
        }
    }

    /// The text of the token at `index`.
    pub fn token_string(&self, index: AstIndex) -> (s: String)
        requires
            index < self.tokens@.len(),
            self.token_refs_valid(self.tokens@[index as int]),
        ensures
            s@ == self.spec_token_text(self.tokens@[index as int]),
    {
        self.tokens[index].to_string(self)
    }
}

fn error_string(code: crate::error_code::ErrorCode) -> (s: String)
    ensures
        s@ == "error("@ + error_code_name(code) + ")"@,
{
    let mut s = "error(".to_owned();
    s.append(code.name());
    s.append(")");
    s
}

impl ExpressionToken {
    pub fn to_string(&self, ast: &Ast) -> (s: String)
        requires
            ast.token_refs_valid(Token::Expression(*self)),
        ensures
            s@ == ast.spec_token_text(Token::Expression(*self)),
    {
        match *self {
            ExpressionToken::IntegerLiteral(literal) => ast.literal_string(literal).to_owned(),
            ExpressionToken::ErrorTerm(code, ..) | ExpressionToken::RawErrorTerm(code, ..) => error_string(code),
            ExpressionToken::FieldReference(field) => ast.identifier_string(ast.fields[field].name).to_owned(),
            ExpressionToken::RawIdentifier(identifier) | ExpressionToken::PrefixOperator(identifier) => ast.identifier_string(identifier).to_owned(),
            ExpressionToken::Open { boundary, .. } => boundary.open_string().to_owned(),
            ExpressionToken::OpenBlock { index, .. } => ast.blocks[index].boundary.open_string().to_owned(),
            ExpressionToken::MissingExpression => "".to_owned(),
        }
    }
}

impl OperatorToken {
    pub fn to_string(&self, ast: &Ast) -> (s: String)
        requires
            ast.token_refs_valid(Token::Operator(*self)),
        ensures
            s@ == ast.spec_token_text(Token::Operator(*self)),
    {
        match *self {
            OperatorToken::InfixOperator(identifier) | OperatorToken::PostfixOperator(identifier) => ast.identifier_string(identifier).to_owned(),
            OperatorToken::InfixAssignment(identifier) => {
                let mut s = ast.identifier_string(identifier).to_owned();
                s.append("=");
                s
            },
            OperatorToken::NewlineSequence => "\\n".to_owned(),
            OperatorToken::Close { boundary, .. } => boundary.close_string().to_owned(),
            OperatorToken::CloseBlock { index, .. } => ast.blocks[index].boundary.close_string().to_owned(),
            OperatorToken::Apply => "".to_owned(),
        }
    }
}

impl Token {
    pub fn to_string(&self, ast: &Ast) -> (s: String)
        requires
            ast.token_refs_valid(*self),
        ensures
            s@ == ast.spec_token_text(*self),
    {
        match *self {
            Token::Expression(token) => token.to_string(ast),
            Token::Operator(token) => token.to_string(ast),
        }
    }
}

} // verus!
