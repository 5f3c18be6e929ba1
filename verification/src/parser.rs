//! Syntactic analysis: consumes the token sequence and builds the syntax
//! tree.
//!
//! The grammar is LL(1) over the token stream: one token of lookahead,
//! recursive descent, no backtracking. There are three productions — atom,
//! list literal, function-call form — plus the top-level program wrapper.
//! The parser is specified as a pure function of the token sequence, so
//! parsing the same tokens twice yields structurally equal trees.

use vstd::prelude::*;

use crate::lexer::{lemma_tokenize_spec_wf, tokenize_spec, Lexer, LexerError, Token, TokenV};
use crate::nodes::{nodes_view, Node, NodeV, Value, ValueV};

verus! {

// ------------------------------------------------------------------
// Parser errors
// ------------------------------------------------------------------

/// A token-level error. `UnexpectedToken` carries the offending token and a
/// short reason.
#[derive(Debug)]
pub enum ParserError {
    UnexpectedToken(Token, String),
    UnexpectedEndOfFile,
    ParserStateError(String),
}

/// The mathematical model of a parser error.
pub enum ParserErrorV {
    UnexpectedToken(TokenV, Seq<char>),
    UnexpectedEndOfFile,
    ParserStateError(Seq<char>),
}

impl View for ParserError {
    type V = ParserErrorV;

    open spec fn view(&self) -> ParserErrorV {
        match self {
            ParserError::UnexpectedToken(t, s) => ParserErrorV::UnexpectedToken(t@, s@),
            ParserError::UnexpectedEndOfFile => ParserErrorV::UnexpectedEndOfFile,
            ParserError::ParserStateError(s) => ParserErrorV::ParserStateError(s@),
        }
    }
}

/// The message string a parser error renders to.
pub open spec fn parser_error_text(e: ParserErrorV) -> Seq<char> {
    match e {
        ParserErrorV::UnexpectedToken(t, s) => "Unexpected token: "@ + crate::lexer::token_text(t)
            + " "@ + s,
        ParserErrorV::UnexpectedEndOfFile => "Unexpected end of file"@,
        ParserErrorV::ParserStateError(s) => "Parser state error: "@ + s,
    }
}

impl ParserError {
    /// A human-readable rendering of the error.
    pub fn message(&self) -> (r: String)
        ensures
            r@ == parser_error_text(self@),
    {
        match self {
            ParserError::UnexpectedToken(t, s) => String::from_str("Unexpected token: ").concat(
                t.describe().as_str(),
            ).concat(" ").concat(s.as_str()),
            ParserError::UnexpectedEndOfFile => String::from_str("Unexpected end of file"),
            ParserError::ParserStateError(s) => String::from_str("Parser state error: ").concat(
                s.as_str(),
            ),
        }
    }
}

impl Clone for ParserError {
    fn clone(&self) -> (res: ParserError)
        ensures
            res@ == self@,
    {
        match self {
            ParserError::UnexpectedToken(t, s) => ParserError::UnexpectedToken(
                t.clone(),
                s.clone(),
            ),
            ParserError::UnexpectedEndOfFile => ParserError::UnexpectedEndOfFile,
            ParserError::ParserStateError(s) => ParserError::ParserStateError(s.clone()),
        }
    }
}

impl PartialEq for ParserError {
    fn eq(&self, other: &ParserError) -> (r: bool) {
        match (self, other) {
            (ParserError::UnexpectedToken(t1, s1), ParserError::UnexpectedToken(t2, s2)) => *t1
                == *t2 && *s1 == *s2,
            (ParserError::UnexpectedEndOfFile, ParserError::UnexpectedEndOfFile) => true,
            (ParserError::ParserStateError(s1), ParserError::ParserStateError(s2)) => *s1 == *s2,
            _ => false,
        }
    }
}

impl vstd::std_specs::cmp::PartialEqSpecImpl for ParserError {
    open spec fn obeys_eq_spec() -> bool {
        true
    }

    open spec fn eq_spec(&self, other: &ParserError) -> bool {
        self@ == other@
    }
}

// ------------------------------------------------------------------
// The grammar, as a mathematical model
// ------------------------------------------------------------------

/// A well-formed token sequence: terminated by exactly one end-of-input
/// token. The lexer returns only such sequences.
pub open spec fn tokens_wf(ts: Seq<TokenV>) -> bool {
    &&& ts.len() >= 1
    &&& ts[ts.len() - 1] == TokenV::EOF
    &&& forall|q: int| 0 <= q < ts.len() - 1 ==> ts[q] != TokenV::EOF
}

/// One node parsed at `pos`, with the position after it. Dispatches on the
/// current token: literals become atoms, identifiers become variable
/// references, `[` opens a list literal, `(` a function-call form; any
/// other token is unimplemented grammar.
pub open spec fn parse_node_spec(ts: Seq<TokenV>, pos: int) -> Result<
    (NodeV, int),
    ParserErrorV,
>
    decreases ts.len() - pos, 0int,
{
    if !(0 <= pos < ts.len()) {
        Err(ParserErrorV::UnexpectedEndOfFile)
    } else {
        match ts[pos] {
            TokenV::EOF => Ok((NodeV::EOF, pos + 1)),
            TokenV::Number(text) => Ok((NodeV::Atom(ValueV::Number(text)), pos + 1)),
            TokenV::String(text) => Ok((NodeV::Atom(ValueV::String(text)), pos + 1)),
            TokenV::Bool(b) => Ok((NodeV::Atom(ValueV::Boolean(b)), pos + 1)),
            TokenV::Identifier(name) => Ok((NodeV::Variable(name), pos + 1)),
            TokenV::OpenBracket => parse_list_spec(ts, pos + 1),
            TokenV::OpenParen => parse_function_call_spec(ts, pos + 1),
            _ => Err(ParserErrorV::UnexpectedToken(ts[pos], "unimplemented grammar"@)),
        }
    }
}

/// Nodes parsed repeatedly until the matching closing token, which is
/// consumed; reaching the end-of-input sentinel first is an unterminated
/// form.
pub open spec fn parse_items_spec(ts: Seq<TokenV>, pos: int, closing: TokenV) -> Result<
    (Seq<NodeV>, int),
    ParserErrorV,
>
    decreases ts.len() - pos, 1int,
{
    if !(0 <= pos < ts.len()) {
        Err(ParserErrorV::UnexpectedEndOfFile)
    } else if ts[pos] == closing {
        Ok((Seq::empty(), pos + 1))
    } else {
        match parse_node_spec(ts, pos) {
            Err(e) => Err(e),
            Ok((n, p2)) => if n == NodeV::EOF {
                Err(ParserErrorV::UnexpectedEndOfFile)
            } else if pos < p2 <= ts.len() {
                match parse_items_spec(ts, p2, closing) {
                    Err(e) => Err(e),
                    Ok((rest, p3)) => Ok((seq![n] + rest, p3)),
                }
            } else {
                // never the value of a reachable parse: parsing a node
                // advances the position
                Err(arbitrary())
            },
        }
    }
}

/// The list-literal production, entered after the opening bracket: element
/// nodes up to the closing bracket, wrapped as a list-value atom.
pub open spec fn parse_list_spec(ts: Seq<TokenV>, pos: int) -> Result<(NodeV, int), ParserErrorV>
    decreases ts.len() - pos, 2int,
{
    match parse_items_spec(ts, pos, TokenV::CloseBracket) {
        Err(e) => Err(e),
        Ok((items, p)) => Ok((NodeV::Atom(ValueV::List(items)), p)),
    }
}

/// The function-call production, entered after the opening parenthesis:
/// exactly one callee node, which must reduce to a variable, then argument
/// nodes up to the closing parenthesis.
pub open spec fn parse_function_call_spec(ts: Seq<TokenV>, pos: int) -> Result<
    (NodeV, int),
    ParserErrorV,
>
    decreases ts.len() - pos, 3int,
{
    match parse_node_spec(ts, pos) {
        Err(e) => Err(e),
        Ok((nv, p2)) => match nv {
            NodeV::EOF => Err(ParserErrorV::UnexpectedEndOfFile),
            NodeV::Variable(name) => if pos < p2 <= ts.len() {
                match parse_items_spec(ts, p2, TokenV::CloseParen) {
                    Err(e) => Err(e),
                    Ok((items, p3)) => Ok((NodeV::FunctionCall(name, items), p3)),
                }
            } else {
                // never the value of a reachable parse: parsing a node
                // advances the position
                Err(arbitrary())
            },
            _ => Err(ParserErrorV::UnexpectedToken(ts[pos], "not a variable"@)),
        },
    }
}

/// Top-level node sequence: nodes parsed until the token stream is
/// exhausted.
pub open spec fn parse_program_items_spec(ts: Seq<TokenV>, pos: int) -> Result<
    (Seq<NodeV>, int),
    ParserErrorV,
>
    decreases ts.len() - pos, 3int,
{
    if pos >= ts.len() {
        Ok((Seq::empty(), pos))
    } else {
        match parse_node_spec(ts, pos) {
            Err(e) => Err(e),
            Ok((n, p2)) => if pos < p2 <= ts.len() {
                match parse_program_items_spec(ts, p2) {
                    Err(e) => Err(e),
                    Ok((rest, p3)) => Ok((seq![n] + rest, p3)),
                }
            } else {
                // never the value of a reachable parse: parsing a node
                // advances the position
                Err(arbitrary())
            },
        }
    }
}

/// The whole program: the top-level nodes, which must be non-empty and end
/// with the end-of-input sentinel; otherwise the parser state is in error.
pub open spec fn parse_program_spec(ts: Seq<TokenV>, pos: int) -> Result<NodeV, ParserErrorV> {
    match parse_program_items_spec(ts, pos) {
        Err(e) => Err(e),
        Ok((nodes, _)) => if nodes.len() == 0 {
            Err(ParserErrorV::ParserStateError("Empty program"@))
        } else if nodes[nodes.len() - 1] == NodeV::EOF {
            Ok(NodeV::Program(nodes))
        } else {
            Err(ParserErrorV::ParserStateError("Expected EOF"@))
        },
    }
}

/// The parser is a pure function of its input: equal token sequences
/// parse to structurally equal syntax trees.
pub proof fn lemma_parse_deterministic(t1: Seq<TokenV>, t2: Seq<TokenV>)
    requires
        t1 == t2,
    ensures
        parse_program_spec(t1, 0) == parse_program_spec(t2, 0),
{
}

// ------------------------------------------------------------------
// The parser
// ------------------------------------------------------------------

/// The recursive-descent parser: the token sequence and the position of the
/// current token.
pub struct Parser {
    tokens: Vec<Token>,
    pos: usize,
}

impl Parser {
    /// The token sequence this parser reads.
    pub closed spec fn toks(self) -> Seq<TokenV> {
        self.tokens@.map_values(|t: Token| t@)
    }

    /// The position of the current token.
    pub closed spec fn cursor(self) -> int {
        self.pos as int
    }

    /// A parser in a usable state: its token sequence is terminated by
    /// exactly one end-of-input token (as the lexer guarantees) and the
    /// position is inside or one past the sequence.
    pub open spec fn wf(self) -> bool {
        &&& tokens_wf(self.toks())
        &&& 0 <= self.cursor() <= self.toks().len()
    }

    pub fn new(tokens: Vec<Token>) -> (p: Parser)
        ensures
            p.toks() == tokens@.map_values(|t: Token| t@),
            p.cursor() == 0,
    {
        Parser { tokens, pos: 0 }
    }

    /// Lex the source and build a parser over the resulting tokens.
    pub fn from_source(source: String) -> (r: Result<Parser, LexerError>)
        ensures
            ({
                match tokenize_spec(source@, 0) {
                    Ok(ts) => r matches Ok(p) && p.toks() == ts && p.cursor() == 0 && p.wf(),
                    Err(e) => r matches Err(err) && err@ == e,
                }
            }),
    {
        let ghost src = source@;
        let mut lexer = Lexer::new(source);
        match lexer.tokenize() {
            Ok(tokens) => {
                proof {
                    lemma_tokenize_spec_wf(src, 0);
                }
                Ok(Parser::new(tokens))
            },
            Err(e) => Err(e),
        }
    }

    /// The current token.
    fn curr_token(&self) -> (t: &Token)
        requires
            0 <= self.cursor() < self.toks().len(),
        ensures
            t@ == self.toks()[self.cursor()],
    {
        &self.tokens[self.pos]
    }

    pub fn parse(&mut self) -> (r: Result<Node, ParserError>)
        requires
            old(self).wf(),
        ensures
            final(self).wf(),
            final(self).toks() == old(self).toks(),
            ({
                match parse_program_spec(old(self).toks(), old(self).cursor()) {
                    Ok(nv) => r matches Ok(n) && n@ == nv,
                    Err(ev) => r matches Err(e) && e@ == ev,
                }
            }),
    {
        return self.parseProgram();
    }

    #[allow(non_snake_case)]
    pub fn parseProgram(&mut self) -> (r: Result<Node, ParserError>)
        requires
            old(self).wf(),
        ensures
            final(self).wf(),
            final(self).toks() == old(self).toks(),
            ({
                match parse_program_spec(old(self).toks(), old(self).cursor()) {
                    Ok(nv) => r matches Ok(n) && n@ == nv,
                    Err(ev) => r matches Err(e) && e@ == ev,
                }
            }),
    {
        let ghost ts = old(self).toks();
        let ghost c0 = old(self).cursor();
        let mut nodes: Vec<Node> = Vec::new();
        proof {
            assert(nodes_view(nodes@) =~= Seq::<NodeV>::empty());
            match parse_program_items_spec(ts, c0) {
                Ok((rest, p)) => {
                    assert(Seq::<NodeV>::empty() + rest =~= rest);
                },
                Err(_) => {},
            }
        }
        while self.pos < self.tokens.len()
            invariant
                self.wf(),
                self.toks() == ts,
                ts == old(self).toks(),
                c0 == old(self).cursor(),
                ({
                    match parse_program_items_spec(ts, self.cursor()) {
                        Ok((rest, p)) => parse_program_items_spec(ts, c0) == Ok::<
                            (Seq<NodeV>, int),
                            ParserErrorV,
                        >((nodes_view(nodes@) + rest, p)),
                        Err(e) => parse_program_items_spec(ts, c0) == Err::<
                            (Seq<NodeV>, int),
                            ParserErrorV,
                        >(e),
                    }
                }),
            decreases ts.len() - self.cursor(),
        {
            let ghost cur = self.cursor();
            let ghost accv = nodes_view(nodes@);
            proof {
                assert(self.toks().len() == self.tokens@.len());
            }
            match self.parse_node() {
                Ok(n) => {
                    let ghost nv = n@;
                    let ghost prev = nodes@;
                    nodes.push(n);
                    proof {
                        crate::nodes::lemma_nodes_view_is_map(prev);
                        crate::nodes::lemma_nodes_view_is_map(nodes@);
                        assert(nodes@.map_values(|x: Node| x@) =~= prev.map_values(
                            |x: Node| x@,
                        ).push(nv));
                        assert(nodes_view(nodes@) =~= accv.push(nv));
                        match parse_program_items_spec(ts, self.cursor()) {
                            Ok((rest2, _)) => {
                                assert(accv + (seq![nv] + rest2) =~= accv.push(nv) + rest2);
                            },
                            Err(_) => {},
                        }
                    }
                },
                Err(e) => {
                    return Err(e);
                },
            }
        }
        proof {
            assert(self.toks().len() == self.tokens@.len());
            assert(parse_program_items_spec(ts, self.cursor()) == Ok::<
                (Seq<NodeV>, int),
                ParserErrorV,
            >((Seq::empty(), self.cursor())));
            assert(nodes_view(nodes@) + Seq::<NodeV>::empty() =~= nodes_view(nodes@));
            crate::nodes::lemma_nodes_view_is_map(nodes@);
        }
        if nodes.len() == 0 {
            return Err(ParserError::ParserStateError(String::from_str("Empty program")));
        }
        let last_is_eof = matches!(&nodes[nodes.len() - 1], Node::EOF);
        if last_is_eof {
            Ok(Node::Program(nodes))
        } else {
            Err(ParserError::ParserStateError(String::from_str("Expected EOF")))
        }
    }

    /// Parse nodes up to the closing token, which is consumed.
    fn parse_items(&mut self, closing: &Token) -> (r: Result<Vec<Node>, ParserError>)
        requires
            old(self).wf(),
            old(self).cursor() < old(self).toks().len(),
            closing@ == TokenV::CloseBracket || closing@ == TokenV::CloseParen,
        ensures
            final(self).wf(),
            final(self).toks() == old(self).toks(),
            ({
                let ts = old(self).toks();
                match parse_items_spec(ts, old(self).cursor(), closing@) {
                    Ok((items, p)) => r matches Ok(v) && nodes_view(v@) == items && final(self).cursor() == p && old(self).cursor() < p < ts.len(),
                    Err(ev) => r matches Err(e) && e@ == ev,
                }
            }),
        decreases old(self).toks().len() - old(self).cursor(), 1int,
    {
        let ghost ts = old(self).toks();
        let ghost c0 = old(self).cursor();
        let mut nodes: Vec<Node> = Vec::new();
        proof {
            assert(nodes_view(nodes@) =~= Seq::<NodeV>::empty());
            match parse_items_spec(ts, c0, closing@) {
                Ok((rest, p)) => {
                    assert(Seq::<NodeV>::empty() + rest =~= rest);
                },
                Err(_) => {},
            }
        }
        loop
            invariant_except_break
                ({
                    match parse_items_spec(ts, self.cursor(), closing@) {
                        Ok((rest, p)) => parse_items_spec(ts, c0, closing@) == Ok::<
                            (Seq<NodeV>, int),
                            ParserErrorV,
                        >((nodes_view(nodes@) + rest, p)),
                        Err(e) => parse_items_spec(ts, c0, closing@) == Err::<
                            (Seq<NodeV>, int),
                            ParserErrorV,
                        >(e),
                    }
                }),
            invariant
                self.wf(),
                self.toks() == ts,
                ts == old(self).toks(),
                c0 == old(self).cursor(),
                c0 <= self.cursor() < ts.len(),
                closing@ == TokenV::CloseBracket || closing@ == TokenV::CloseParen,
            ensures
                self.toks() == ts,
                ({
                    match parse_items_spec(ts, c0, closing@) {
                        Ok((items, p)) => nodes_view(nodes@) == items && self.cursor() == p && c0
                            < p < ts.len(),
                        Err(_) => false,
                    }
                }),
            decreases ts.len() - self.cursor(),
        {
            let ghost cur = self.cursor();
            let ghost accv = nodes_view(nodes@);
            proof {
                broadcast use vstd::std_specs::vec::axiom_spec_len;

                assert(self.tokens.len() <= usize::MAX);
                assert(self.toks().len() == self.tokens@.len());
            }
            let at_closing = *self.curr_token() == *closing;
            if at_closing {
                self.pos = self.pos + 1;
                proof {
                    assert(parse_items_spec(ts, cur, closing@) == Ok::<
                        (Seq<NodeV>, int),
                        ParserErrorV,
                    >((Seq::empty(), cur + 1)));
                    assert(accv + Seq::<NodeV>::empty() =~= accv);
                    assert(ts[cur] == closing@ && closing@ != TokenV::EOF);
                }
                break ;
            }
            match self.parse_node() {
                Ok(n) => {
                    let is_eof = matches!(&n, Node::EOF);
                    if is_eof {
                        return Err(ParserError::UnexpectedEndOfFile);
                    }
                    let ghost nv = n@;
                    let ghost prev = nodes@;
                    nodes.push(n);
                    proof {
                        crate::nodes::lemma_nodes_view_is_map(prev);
                        crate::nodes::lemma_nodes_view_is_map(nodes@);
                        assert(nodes@.map_values(|x: Node| x@) =~= prev.map_values(
                            |x: Node| x@,
                        ).push(nv));
                        assert(nodes_view(nodes@) =~= accv.push(nv));
                        match parse_items_spec(ts, self.cursor(), closing@) {
                            Ok((rest2, _)) => {
                                assert(accv + (seq![nv] + rest2) =~= accv.push(nv) + rest2);
                            },
                            Err(_) => {},
                        }
                    }
                },
                Err(e) => {
                    return Err(e);
                },
            }
        }
        Ok(nodes)
    }

    /// The list-literal production; the opening bracket has been consumed.
    pub fn parse_list(&mut self) -> (r: Result<Node, ParserError>)
        requires
            old(self).wf(),
            old(self).cursor() < old(self).toks().len(),
        ensures
            final(self).wf(),
            final(self).toks() == old(self).toks(),
            ({
                let ts = old(self).toks();
                match parse_list_spec(ts, old(self).cursor()) {
                    Ok((nv, p)) => r matches Ok(n) && n@ == nv && final(self).cursor() == p && old(self).cursor() < p < ts.len(),
                    Err(ev) => r matches Err(e) && e@ == ev,
                }
            }),
        decreases old(self).toks().len() - old(self).cursor(), 2int,
    {
        match self.parse_items(&Token::CloseBracket) {
            Ok(nodes) => Ok(Node::Atom(Value::List(nodes))),
            Err(e) => Err(e),
        }
    }

    /// The function-call production; the opening parenthesis has been
    /// consumed.
    pub fn parse_function_call(&mut self) -> (r: Result<Node, ParserError>)
        requires
            old(self).wf(),
            old(self).cursor() < old(self).toks().len(),
        ensures
            final(self).wf(),
            final(self).toks() == old(self).toks(),
            ({
                let ts = old(self).toks();
                match parse_function_call_spec(ts, old(self).cursor()) {
                    Ok((nv, p)) => r matches Ok(n) && n@ == nv && final(self).cursor() == p && old(self).cursor() < p < ts.len(),
                    Err(ev) => r matches Err(e) && e@ == ev,
                }
            }),
        decreases old(self).toks().len() - old(self).cursor(), 3int,
    {
        let start_pos = self.pos;
        let name_node = match self.parse_node() {
            Ok(n) => n,
            Err(e) => {
                return Err(e);
            },
        };
        let name = match name_node {
            Node::Variable(name) => name,
            Node::EOF => {
                return Err(ParserError::UnexpectedEndOfFile);
            },
            _ => {
                return Err(
                    ParserError::UnexpectedToken(
                        self.tokens[start_pos].clone(),
                        String::from_str("not a variable"),
                    ),
                );
            },
        };
        match self.parse_items(&Token::CloseParen) {
            Ok(args) => Ok(Node::FunctionCall(name, args)),
            Err(e) => Err(e),
        }
    }

    /// One node, dispatched on the current token.
    pub fn parse_node(&mut self) -> (r: Result<Node, ParserError>)
        requires
            old(self).wf(),
            old(self).cursor() < old(self).toks().len(),
        ensures
            final(self).wf(),
            final(self).toks() == old(self).toks(),
            ({
                let ts = old(self).toks();
                match parse_node_spec(ts, old(self).cursor()) {
                    Ok((nv, p)) => r matches Ok(n) && n@ == nv && final(self).cursor() == p && old(self).cursor() < p <= ts.len() && (!(nv is EOF) ==> p < ts.len()),
                    Err(ev) => r matches Err(e) && e@ == ev,
                }
            }),
        decreases old(self).toks().len() - old(self).cursor(), 0int,
    {
        proof {
            broadcast use vstd::std_specs::vec::axiom_spec_len;

            assert(self.tokens.len() <= usize::MAX);
            assert(self.toks().len() == self.tokens@.len());
        }
        let t = self.curr_token();
        match t {
            Token::EOF => {
                self.pos = self.pos + 1;
                Ok(Node::EOF)
            },
            Token::Number(text) => {
                let text = text.clone();
                self.pos = self.pos + 1;
                Ok(Node::Atom(Value::Number(text)))
            },
            Token::String(text) => {
                let text = text.clone();
                self.pos = self.pos + 1;
                Ok(Node::Atom(Value::String(text)))
            },
            Token::Bool(b) => {
                let b = *b;
                self.pos = self.pos + 1;
                Ok(Node::Atom(Value::Boolean(b)))
            },
            Token::Identifier(name) => {
                let name = name.clone();
                self.pos = self.pos + 1;
                Ok(Node::Variable(name))
            },
            Token::OpenBracket => {
                self.pos = self.pos + 1;
                self.parse_list()
            },
            Token::OpenParen => {
                self.pos = self.pos + 1;
                self.parse_function_call()
            },
            _ => {
                let bad = self.curr_token().clone();
                Err(ParserError::UnexpectedToken(bad, String::from_str("unimplemented grammar")))
            },
        }
    }
}

} // verus!
