//! A recursive-descent parser over token lists.

use vstd::prelude::*;
use vstd::string::StringExecFns;

use crate::lexer::tokens_view;
use crate::token::{same_token, SpecTokenType, Token, TokenKind, TokenList, TokenType};

verus! {

/// An atom of an expression.
#[derive(Debug)]
pub enum AtomicExpr {
    Unit(Token, Option<TokenType>),
    Identifier(TokenType),
    Operator(TokenType),
}

/// Atoms played one after another, possibly under a rhythm.
#[derive(Debug)]
pub enum SeriesExpr {
    Line(Vec<AtomicExpr>),
    WithRhythm(Box<RhythmExpr>, Box<AtomicExpr>, Box<SeriesExpr>),
}

/// Atoms played together.
#[derive(Debug)]
pub enum ParallelExpr {
    Chord(Vec<AtomicExpr>),
}

/// A rhythm, grouped by beats or by bars.
#[derive(Debug)]
pub enum RhythmExpr {
    BeatGrouping(Vec<AtomicExpr>),
    BarGrouping(Vec<AtomicExpr>),
}

/// A top-level expression of a score.
#[derive(Debug)]
pub enum Expr {
    SeriesExpr(SeriesExpr),
    ParallelExpr(ParallelExpr),
    RhythmExpr(RhythmExpr),
    AssignmentExpr(AssignmentExpr),
}

/// A name bound to an expression.
#[derive(Debug)]
pub enum AssignmentExpr {
    RhythmAssignment(TokenType, Box<RhythmExpr>),
    ParallelAssignment(TokenType, Box<ParallelExpr>),
    SeriesAssignment(TokenType, Box<SeriesExpr>),
}

/// A whole score: its expressions in order.
#[derive(Debug)]
pub enum Score {
    ExprList(Vec<Expr>),
}

/// A parser over a token list, reading from position `index`.
#[derive(Debug)]
pub struct Parser {
    pub token_list: TokenList,
    pub index: usize,
}

/// Why parsing failed, and at which token (none at the end of the list).
#[derive(Debug)]
pub struct ParseError {
    pub reason: String,
    pub at_token: Option<Token>,
}

/// The result of a parsing function.
pub type ParseResult<T> = Result<T, ParseError>;

/// The reason given by `expr_empty` errors.
pub open spec fn reason_expr_empty() -> Seq<char> {
    "could not parse expression: expected tokens remaining, but token stream is empty"@
}

/// The reason given by `expr_unknown` errors.
pub open spec fn reason_expr_unknown() -> Seq<char> {
    "could not parse expression: could not recognise token"@
}

/// The reason given by `rhythm_assign_ident` errors.
pub open spec fn reason_rhythm_assign_ident() -> Seq<char> {
    "could not parse rhythm assignment expression: expected identifier"@
}

/// The reason given by `rhythm_assign_empty` errors.
pub open spec fn reason_rhythm_assign_empty() -> Seq<char> {
    "could not parse rhythm assignment expression: no tokens remaining"@
}

/// The reason given by `series_assign_ident` errors.
pub open spec fn reason_series_assign_ident() -> Seq<char> {
    "could not parse series assignment expression: expected identifier"@
}

/// The reason given by `series_assign_empty` errors.
pub open spec fn reason_series_assign_empty() -> Seq<char> {
    "could not parse series assignment expression: no tokens remaining"@
}

/// The reason given by `parallel_assign_ident` errors.
pub open spec fn reason_parallel_assign_ident() -> Seq<char> {
    "could not parse parallel assignment expression: expected identifier"@
}

/// The reason given by `parallel_assign_empty` errors.
pub open spec fn reason_parallel_assign_empty() -> Seq<char> {
    "could not parse parallel assignment expression: no tokens remaining"@
}

/// The reason given by `parallel_empty` errors.
pub open spec fn reason_parallel_empty() -> Seq<char> {
    "could not parse parallel expression: no parallel subexpressions found"@
}

/// The reason given by `atomic_ident` errors.
pub open spec fn reason_atomic_ident() -> Seq<char> {
    "could not parse atomic expression: expected identifier"@
}

/// The reason given by `atomic_empty` errors.
pub open spec fn reason_atomic_empty() -> Seq<char> {
    "could not parse atomic expression: no tokens remaining"@
}

/// The reason given by `series_undefined` errors.
pub open spec fn reason_series_undefined() -> Seq<char> {
    "could not parse series expression: the grammar has no rule for series expressions"@
}

/// The reason given by `rhythm_undefined` errors.
pub open spec fn reason_rhythm_undefined() -> Seq<char> {
    "could not parse rhythm expression: the grammar has no rule for rhythm expressions"@
}

/// The reason given by `assignment_undefined` errors.
pub open spec fn reason_assignment_undefined() -> Seq<char> {
    "could not parse assignment expression: the grammar has no rule for assignment expressions"@
}

/// An optional token taken by its view.
pub open spec fn token_opt_view(t: Option<Token>) -> Option<SpecTokenType> {
    match t {
        Some(t) => Some(t@),
        None => None,
    }
}

/// A parse error taken by its view: the reason and the token it names.
pub open spec fn error_view(e: ParseError) -> (Seq<char>, Option<SpecTokenType>) {
    (e.reason@, token_opt_view(e.at_token))
}

/// The token at position `i` of `toks`, if there is one.
pub open spec fn peek_at(toks: Seq<SpecTokenType>, i: int) -> Option<SpecTokenType> {
    if 0 <= i < toks.len() {
        Some(toks[i])
    } else {
        None
    }
}

/// Whether there is a token at position `i` and it equals `t` (numerals by value).
pub open spec fn token_at_is(toks: Seq<SpecTokenType>, i: int, t: SpecTokenType) -> bool {
    match peek_at(toks, i) {
        Some(u) => same_token(u, t),
        None => false,
    }
}

/// Whether the token at position `i` is an identifier. The chord loop of
/// this parser stays on such a token and never ends, so chord parsing
/// leaves that input out.
pub open spec fn is_identifier_at(toks: Seq<SpecTokenType>, i: int) -> bool {
    peek_at(toks, i) matches Some(TokenKind::Identifier(_))
}

/// Whether an expression at position `i` would start a chord whose loop never ends.
pub open spec fn endless_chord_at(toks: Seq<SpecTokenType>, i: int) -> bool {
    peek_at(toks, i) == Some(TokenKind::<Seq<char>>::Hash) && is_identifier_at(toks, i + 1)
}

/// The token kinds of a list of atoms, if every atom is an identifier atom.
pub open spec fn identifier_atoms(atoms: Seq<AtomicExpr>) -> Option<Seq<SpecTokenType>> {
    if forall|j: int| 0 <= j < atoms.len() ==> #[trigger] atoms[j] is Identifier {
        Some(Seq::new(atoms.len(), |j: int| atoms[j]->Identifier_0@))
    } else {
        None
    }
}

/// The identifiers of an expression, if it is a chord of identifier atoms.
pub open spec fn chord_view(e: Expr) -> Option<Seq<SpecTokenType>> {
    match e {
        Expr::ParallelExpr(ParallelExpr::Chord(atoms)) => identifier_atoms(atoms@),
        _ => None,
    }
}


/// A parse error as contracts speak of it: its reason and the token it names.
pub type ErrorView = (Seq<char>, Option<SpecTokenType>);

/// What parsing a series expression from position `i` gives: an error at
/// the token there, and the same position.
pub open spec fn series_outcome(toks: Seq<SpecTokenType>, i: int) -> (ErrorView, int) {
    ((reason_series_undefined(), peek_at(toks, i)), i)
}

/// What parsing a rhythm expression from position `i` gives: an error at
/// the token there, and the same position.
pub open spec fn rhythm_outcome(toks: Seq<SpecTokenType>, i: int) -> (ErrorView, int) {
    ((reason_rhythm_undefined(), peek_at(toks, i)), i)
}

/// What parsing an assignment from position `i` gives: an error at the
/// token there, and the same position.
pub open spec fn assignment_outcome(toks: Seq<SpecTokenType>, i: int) -> (ErrorView, int) {
    ((reason_assignment_undefined(), peek_at(toks, i)), i)
}

/// What parsing a chord from position `i` gives, where the token there is
/// not an identifier: no member is found, so an error at that token, and
/// the same position.
pub open spec fn parallel_outcome(toks: Seq<SpecTokenType>, i: int) -> (Result<Seq<SpecTokenType>, ErrorView>, int) {
    (Err((reason_parallel_empty(), peek_at(toks, i))), i)
}

/// What parsing a rhythm assignment from position `i` gives.
pub open spec fn rhythm_assignment_outcome(toks: Seq<SpecTokenType>, i: int) -> (ErrorView, int) {
    match peek_at(toks, i) {
        Some(TokenKind::Identifier(_)) => rhythm_outcome(toks, i + 1),
        Some(t) => ((reason_rhythm_assign_ident(), Some(t)), i),
        None => ((reason_rhythm_assign_empty(), None), i),
    }
}

/// What parsing a series assignment from position `i` gives.
pub open spec fn series_assignment_outcome(toks: Seq<SpecTokenType>, i: int) -> (ErrorView, int) {
    match peek_at(toks, i) {
        Some(TokenKind::Identifier(_)) => series_outcome(toks, i + 1),
        Some(t) => ((reason_series_assign_ident(), Some(t)), i),
        None => ((reason_series_assign_empty(), None), i),
    }
}

/// What parsing a parallel assignment from position `i` gives: the name
/// and the chord, or an error, and the position after them.
pub open spec fn parallel_assignment_outcome(toks: Seq<SpecTokenType>, i: int)
    -> (Result<(SpecTokenType, Seq<SpecTokenType>), ErrorView>, int)
{
    match peek_at(toks, i) {
        Some(TokenKind::Identifier(name)) => match parallel_outcome(toks, i + 1) {
            (Ok(c), j) => (Ok((TokenKind::Identifier(name), c)), j),
            (Err(e), j) => (Err(e), j),
        },
        Some(t) => (Err((reason_parallel_assign_ident(), Some(t))), i),
        None => (Err((reason_parallel_assign_empty(), None)), i),
    }
}

/// What parsing one expression from position `i` gives: a chord of
/// identifiers or an error, and the position after it.
pub open spec fn expr_outcome(toks: Seq<SpecTokenType>, i: int) -> (Result<Seq<SpecTokenType>, ErrorView>, int) {
    match peek_at(toks, i) {
        None => (Err((reason_expr_empty(), None)), i),
        Some(TokenKind::Tilde) => (Err(series_outcome(toks, i + 1).0), series_outcome(toks, i + 1).1),
        Some(TokenKind::Hash) => parallel_outcome(toks, i + 1),
        Some(TokenKind::ForwardSlash) => (Err(rhythm_outcome(toks, i + 1).0), rhythm_outcome(toks, i + 1).1),
        Some(TokenKind::Identifier(_)) => (Err(assignment_outcome(toks, i).0), assignment_outcome(toks, i).1),
        Some(t) => (Err((reason_expr_unknown(), Some(t))), i),
    }
}

/// What parsing a score from position `i` gives, after the chords `acc`.
pub open spec fn score_outcome(
    toks: Seq<SpecTokenType>,
    i: int,
    acc: Seq<Seq<SpecTokenType>>,
) -> (Result<Seq<Seq<SpecTokenType>>, (Seq<char>, Option<SpecTokenType>)>, int)
    decreases toks.len() - i,
{
    if i < 0 || i >= toks.len() {
        (Ok(acc), i)
    } else {
        match expr_outcome(toks, i) {
            (Ok(chord), j) => if i < j <= toks.len() {
                score_outcome(toks, j, acc.push(chord))
            } else {
                (Ok(acc), i)
            },
            (Err(e), j) => (Err(e), j),
        }
    }
}

/// The chords of a parsed score, or the view of its error.
pub open spec fn score_view(r: ParseResult<Score>)
    -> Result<Seq<Option<Seq<SpecTokenType>>>, (Seq<char>, Option<SpecTokenType>)>
{
    match r {
        Ok(Score::ExprList(v)) => Ok(v@.map_values(|e: Expr| chord_view(e))),
        Err(e) => Err(error_view(e)),
    }
}

/// The chords of a score outcome, each marked as present.
pub open spec fn score_spec_view(
    o: Result<Seq<Seq<SpecTokenType>>, (Seq<char>, Option<SpecTokenType>)>,
) -> Result<Seq<Option<Seq<SpecTokenType>>>, (Seq<char>, Option<SpecTokenType>)> {
    match o {
        Ok(v) => Ok(v.map_values(|c: Seq<SpecTokenType>| Some(c))),
        Err(e) => Err(e),
    }
}

/// Makes a failed parse result.
pub fn parse_error<T>(reason: String, at_token: Option<Token>) -> (r: ParseResult<T>)
    ensures
        r matches Err(e) && e.reason == reason && e.at_token == at_token,
{
    Err(ParseError { reason: reason, at_token: at_token })
}

impl Parser {
    /// The kinds of the tokens in the list.
    pub open spec fn tokens(&self) -> Seq<SpecTokenType> {
        tokens_view(self.token_list@)
    }

    /// What parsing a score from the current position gives.
    pub open spec fn score_parse_outcome(&self) -> (Result<Seq<Seq<SpecTokenType>>, ErrorView>, int) {
        score_outcome(self.tokens(), self.index as int, Seq::empty())
    }

    /// What parsing the token list from the current position gives: the
    /// outcome of parsing a score there.
    pub open spec fn parse_outcome(&self) -> (Result<Seq<Seq<SpecTokenType>>, ErrorView>, int) {
        self.score_parse_outcome()
    }

    /// The token at the current position, if there is one.
    pub fn token_peek(&self) -> (r: Option<&Token>)
        ensures
            r == (if self.index < self.token_list.len() {
                Some(&self.token_list@[self.index as int])
            } else {
                None
            }),
    {
        if self.index < self.token_list.len() {
            Some(&self.token_list[self.index])
        } else {
            None
        }
    }

    fn token_peek_copy(&self) -> (r: Option<Token>)
        ensures
            token_opt_view(r) == peek_at(self.tokens(), self.index as int),
    {
        match self.token_peek() {
            Some(t) => Some(t.duplicate()),
            None => None,
        }
    }

    /// The token before the current position, if there is one.
    pub fn token_previous(&self) -> (r: Option<&Token>)
        ensures
            r == (if 0 < self.index <= self.token_list.len() {
                Some(&self.token_list@[self.index - 1])
            } else {
                None
            }),
    {
        if 0 < self.index && self.index <= self.token_list.len() {
            Some(&self.token_list[self.index - 1])
        } else {
            None
        }
    }

    /// Whether the current token is of kind `token_type`.
    pub fn token_check(&self, token_type: &TokenType) -> (r: bool)
        ensures
            r == token_at_is(self.tokens(), self.index as int, token_type@),
    {
        match self.token_peek() {
            Some(Token { token_type: ttype }) => *ttype == *token_type,
            None => false,
        }
    }

    /// Moves past the current token and returns it; at the end of the list
    /// nothing moves and nothing is returned.
    pub fn token_advance(&mut self) -> (r: Option<Token>)
        ensures
            final(self).token_list == old(self).token_list,
            old(self).index < old(self).token_list.len() ==> {
                &&& final(self).index == old(self).index + 1
                &&& r == Some(old(self).token_list@[old(self).index as int])
            },
            old(self).index >= old(self).token_list.len() ==> {
                &&& final(self).index == old(self).index
                &&& r is None
            },
    {
        if self.index < self.token_list.len() {
            let token = self.token_list[self.index].duplicate();
            self.index = self.index + 1;
            Some(token)
        } else {
            None
        }
    }

    /// Moves past the current token, and returns it, when some kind in
    /// `token_types` is not the kind of the current token; otherwise
    /// nothing moves and nothing is returned.
    pub fn token_match(&mut self, token_types: Vec<TokenType>) -> (r: Option<Token>)
        ensures
            final(self).token_list == old(self).token_list,
            ({
                let i = old(self).index as int;
                let some_differs = exists|j: int|
                    0 <= j < token_types.len()
                        && !token_at_is(old(self).tokens(), i, #[trigger] token_types@[j]@);
                if some_differs && i < old(self).token_list.len() {
                    final(self).index == i + 1 && r == Some(old(self).token_list@[i])
                } else {
                    final(self).index == i && r is None
                }
            }),
    {
        let mut j: usize = 0;
        let mut found = false;
        while j < token_types.len() && !found
            invariant
                *self == *old(self),
                j <= token_types.len(),
                found ==> exists|k: int|
                    0 <= k < token_types.len()
                        && !token_at_is(self.tokens(), self.index as int, #[trigger] token_types@[k]@),
                !found ==> forall|k: int|
                    0 <= k < j ==> token_at_is(self.tokens(), self.index as int, #[trigger] token_types@[k]@),
            decreases token_types.len() - j + (if found { 0int } else { 1int }),
        {
            if !self.token_check(&token_types[j]) {
                found = true;
            } else {
                j = j + 1;
            }
        }
        if found {
            self.token_advance()
        } else {
            None
        }
    }

    /// Parses the whole token list as a score.
    pub fn parse(&mut self) -> (r: ParseResult<Score>)
        requires
            !endless_chord_at(old(self).tokens(), old(self).index as int),
        ensures
            final(self).token_list@ == old(self).token_list@,
            score_view(r) == score_spec_view(old(self).parse_outcome().0),
            final(self).index == old(self).parse_outcome().1,
    {
        self.parse_score()
    }

    /// Parses expressions until the token list ends or one fails.
    pub fn parse_score(&mut self) -> (r: ParseResult<Score>)
        requires
            !endless_chord_at(old(self).tokens(), old(self).index as int),
        ensures
            final(self).token_list@ == old(self).token_list@,
            score_view(r) == score_spec_view(old(self).score_parse_outcome().0),
            final(self).index == old(self).score_parse_outcome().1,
    {
        let mut expr_list: Vec<Expr> = Vec::new();
        let ghost toks = self.tokens();
        let ghost start = self.index as int;
        let ghost mut acc: Seq<Seq<SpecTokenType>> = Seq::empty();
        loop
            invariant
                self.tokens() == toks,
                self.token_list@ == old(self).token_list@,
                toks == old(self).tokens(),
                start == old(self).index as int,
                self.token_list.len() == toks.len(),
                self.index <= toks.len() || self.index == start,
                expr_list@.map_values(|e: Expr| chord_view(e)) == acc.map_values(|c: Seq<SpecTokenType>| Some(c)),
                score_outcome(toks, self.index as int, acc) == score_outcome(toks, start, Seq::empty()),
                !endless_chord_at(toks, self.index as int),
            decreases toks.len() - self.index,
        {
            match self.token_peek() {
                Some(_) => {
                    let ghost i = self.index as int;
                    match self.parse_expr() {
                        Ok(expr) => {
                            let ghost c = expr_outcome(toks, i).0->Ok_0;
                            let ghost ev = chord_view(expr);
                            let ghost old_list = expr_list@;
                            proof {
                                law_no_expression_parses(toks, i);
                            }
                            expr_list.push(expr);
                            proof {
                                assert(expr_list@.map_values(|e: Expr| chord_view(e))
                                    =~= old_list.map_values(|e: Expr| chord_view(e)).push(ev));
                                assert(acc.push(c).map_values(|c: Seq<SpecTokenType>| Some(c))
                                    =~= acc.map_values(|c: Seq<SpecTokenType>| Some(c)).push(Some(c)));
                                acc = acc.push(c);
                            }
                        },
                        Err(error) => {
                            return Err(error);
                        },
                    }
                },
                None => {
                    return Ok(Score::ExprList(expr_list));
                },
            }
        }
    }

    /// Parses one expression, chosen by its first token: `~` a series,
    /// `#` a chord, `/` a rhythm, an identifier an assignment.
    pub fn parse_expr(&mut self) -> (r: ParseResult<Expr>)
        requires
            !endless_chord_at(old(self).tokens(), old(self).index as int),
        ensures
            final(self).token_list@ == old(self).token_list@,
            final(self).index == expr_outcome(old(self).tokens(), old(self).index as int).1,
            match r {
                Ok(e) => expr_outcome(old(self).tokens(), old(self).index as int).0
                    == Ok::<_, (Seq<char>, Option<SpecTokenType>)>(chord_view(e)->0) && chord_view(e) is Some,
                Err(e) => expr_outcome(old(self).tokens(), old(self).index as int).0
                    == Err::<Seq<SpecTokenType>, _>(error_view(e)),
            },
    {
        match self.token_peek() {
            Some(tk) => {
                let token = tk.token_type.duplicate();
                match token {
                    TokenKind::Tilde => {
                        self.token_advance();
                        match self.parse_series_expr() {
                            Ok(parsed) => Ok(Expr::SeriesExpr(parsed)),
                            Err(e) => Err(e),
                        }
                    },
                    TokenKind::Hash => {
                        self.token_advance();
                        match self.parse_parallel_expr() {
                            Ok(parsed) => Ok(Expr::ParallelExpr(parsed)),
                            Err(e) => Err(e),
                        }
                    },
                    TokenKind::ForwardSlash => {
                        self.token_advance();
                        match self.parse_rhythm_expr() {
                            Ok(parsed) => Ok(Expr::RhythmExpr(parsed)),
                            Err(e) => Err(e),
                        }
                    },
                    TokenKind::Identifier(_) => {
                        match self.parse_assignment_expr() {
                            Ok(parsed) => Ok(Expr::AssignmentExpr(parsed)),
                            Err(e) => Err(e),
                        }
                    },
                    t => parse_error(
                        String::from_str("could not parse expression: could not recognise token"),
                        Some(Token { token_type: t }),
                    ),
                }
            },
            None => parse_error(
                String::from_str("could not parse expression: expected tokens remaining, but token stream is empty"),
                None,
            ),
        }
    }

    /// Parses an identifier followed by a rhythm expression.
    pub fn parse_rhythm_assignment(&mut self) -> (r: ParseResult<AssignmentExpr>)
        ensures
            final(self).token_list@ == old(self).token_list@,
            ({
                let toks = old(self).tokens();
                let i = old(self).index as int;
                r matches Err(e) && (error_view(e), final(self).index as int) == rhythm_assignment_outcome(toks, i)
            }),
    {
        match self.token_peek() {
            Some(tk) => {
                let token = tk.token_type.duplicate();
                match token {
                    TokenKind::Identifier(_) => {
                        self.token_advance();
                        match self.parse_rhythm_expr() {
                            Ok(par) => Ok(AssignmentExpr::RhythmAssignment(token, Box::new(par))),
                            Err(err) => Err(err),
                        }
                    },
                    _ => parse_error(
                        String::from_str("could not parse rhythm assignment expression: expected identifier"),
                        Some(Token { token_type: token }),
                    ),
                }
            },
            None => parse_error(
                String::from_str("could not parse rhythm assignment expression: no tokens remaining"),
                None,
            ),
        }
    }

    /// Parses an identifier followed by a series expression.
    pub fn parse_series_assignment(&mut self) -> (r: ParseResult<AssignmentExpr>)
        ensures
            final(self).token_list@ == old(self).token_list@,
            ({
                let toks = old(self).tokens();
                let i = old(self).index as int;
                r matches Err(e) && (error_view(e), final(self).index as int) == series_assignment_outcome(toks, i)
            }),
    {
        match self.token_peek() {
            Some(tk) => {
                let token = tk.token_type.duplicate();
                match token {
                    TokenKind::Identifier(_) => {
                        self.token_advance();
                        match self.parse_series_expr() {
                            Ok(par) => Ok(AssignmentExpr::SeriesAssignment(token, Box::new(par))),
                            Err(err) => Err(err),
                        }
                    },
                    _ => parse_error(
                        String::from_str("could not parse series assignment expression: expected identifier"),
                        Some(Token { token_type: token }),
                    ),
                }
            },
            None => parse_error(
                String::from_str("could not parse series assignment expression: no tokens remaining"),
                None,
            ),
        }
    }

    /// Parses an identifier followed by a parallel expression.
    pub fn parse_parallel_assignment(&mut self) -> (r: ParseResult<AssignmentExpr>)
        requires
            is_identifier_at(old(self).tokens(), old(self).index as int)
                ==> !is_identifier_at(old(self).tokens(), old(self).index + 1),
        ensures
            final(self).token_list@ == old(self).token_list@,
            ({
                let toks = old(self).tokens();
                let i = old(self).index as int;
                let o = parallel_assignment_outcome(toks, i);
                &&& final(self).index == o.1
                &&& match r {
                    Ok(AssignmentExpr::ParallelAssignment(t, chord)) => match *chord {
                        ParallelExpr::Chord(atoms) => identifier_atoms(atoms@) is Some
                            && o.0 == Ok::<_, ErrorView>((t@, identifier_atoms(atoms@)->0)),
                    },
                    Ok(_) => false,
                    Err(e) => o.0 == Err::<(SpecTokenType, Seq<SpecTokenType>), _>(error_view(e)),
                }
            }),
    {
        match self.token_peek() {
            Some(tk) => {
                let token = tk.token_type.duplicate();
                match token {
                    TokenKind::Identifier(_) => {
                        self.token_advance();
                        match self.parse_parallel_expr() {
                            Ok(par) => Ok(AssignmentExpr::ParallelAssignment(token, Box::new(par))),
                            Err(err) => Err(err),
                        }
                    },
                    _ => parse_error(
                        String::from_str("could not parse parallel assignment expression: expected identifier"),
                        Some(Token { token_type: token }),
                    ),
                }
            },
            None => parse_error(
                String::from_str("could not parse parallel assignment expression: no tokens remaining"),
                None,
            ),
        }
    }

    /// Parses an assignment. The grammar has no rule for them yet, so this always
    /// fails, at the current token, without consuming it.
    pub fn parse_assignment_expr(&mut self) -> (r: ParseResult<AssignmentExpr>)
        ensures
            final(self).token_list@ == old(self).token_list@,
            r matches Err(e) && (error_view(e), final(self).index as int)
                == assignment_outcome(old(self).tokens(), old(self).index as int),
    {
        let at = self.token_peek_copy();
        parse_error(String::from_str("could not parse assignment expression: the grammar has no rule for assignment expressions"), at)
    }

    /// Parses a series expression. The grammar has no rule for them yet, so this always
    /// fails, at the current token, without consuming it.
    pub fn parse_series_expr(&mut self) -> (r: ParseResult<SeriesExpr>)
        ensures
            final(self).token_list@ == old(self).token_list@,
            r matches Err(e) && (error_view(e), final(self).index as int)
                == series_outcome(old(self).tokens(), old(self).index as int),
    {
        let at = self.token_peek_copy();
        parse_error(String::from_str("could not parse series expression: the grammar has no rule for series expressions"), at)
    }

    /// Parses a rhythm expression. The grammar has no rule for them yet, so this always
    /// fails, at the current token, without consuming it.
    pub fn parse_rhythm_expr(&mut self) -> (r: ParseResult<RhythmExpr>)
        ensures
            final(self).token_list@ == old(self).token_list@,
            r matches Err(e) && (error_view(e), final(self).index as int)
                == rhythm_outcome(old(self).tokens(), old(self).index as int),
    {
        let at = self.token_peek_copy();
        parse_error(String::from_str("could not parse rhythm expression: the grammar has no rule for rhythm expressions"), at)
    }

    /// The current token as an atom, when it is an identifier; nothing is consumed.
    pub fn parse_atomic_expr(&self) -> (r: ParseResult<AtomicExpr>)
        ensures
            match peek_at(self.tokens(), self.index as int) {
                Some(TokenKind::Identifier(name)) => r matches Ok(AtomicExpr::Identifier(t))
                    && t@ == TokenKind::<Seq<char>>::Identifier(name),
                Some(t) => r matches Err(e) && error_view(e) == (reason_atomic_ident(), Some(t)),
                None => r matches Err(e) && error_view(e) == (reason_atomic_empty(), None::<SpecTokenType>),
            },
    {
        match self.token_peek() {
            Some(tk) => {
                let token = tk.token_type.duplicate();
                match token {
                    TokenKind::Identifier(_) => Ok(AtomicExpr::Identifier(token)),
                    _ => parse_error(
                        String::from_str("could not parse atomic expression: expected identifier"),
                        Some(Token { token_type: token }),
                    ),
                }
            },
            None => parse_error(String::from_str("could not parse atomic expression: no tokens remaining"), None),
        }
    }

    /// Parses a chord. The loop that reads its members stays on the first
    /// identifier and never ends there, so the current token must not be an
    /// identifier; on any other token, or at the end of the list, no member
    /// is found and this fails there without moving.
    pub fn parse_parallel_expr(&mut self) -> (r: ParseResult<ParallelExpr>)
        requires
            !is_identifier_at(old(self).tokens(), old(self).index as int),
        ensures
            final(self).token_list@ == old(self).token_list@,
            ({
                let o = parallel_outcome(old(self).tokens(), old(self).index as int);
                &&& final(self).index == o.1
                &&& match r {
                    Ok(ParallelExpr::Chord(atoms)) => identifier_atoms(atoms@) is Some
                        && o.0 == Ok::<_, ErrorView>(identifier_atoms(atoms@)->0),
                    Err(e) => o.0 == Err::<Seq<SpecTokenType>, _>(error_view(e)),
                }
            }),
    {
        let at = self.token_peek_copy();
        parse_error(String::from_str("could not parse parallel expression: no parallel subexpressions found"), at)
    }
}

/// No expression parses: the series, rhythm and assignment rules are not
/// written, and a chord never finds a member.
pub proof fn law_no_expression_parses(toks: Seq<SpecTokenType>, i: int)
    ensures
        expr_outcome(toks, i).0 is Err,
{
}

/// A score parse that succeeds has read the whole token list: only the
/// empty rest of a list parses.
pub proof fn law_parsed_score_reads_all(toks: Seq<SpecTokenType>, i: int, acc: Seq<Seq<SpecTokenType>>)
    requires
        0 <= i <= toks.len(),
        score_outcome(toks, i, acc).0 is Ok,
    ensures
        score_outcome(toks, i, acc).1 == toks.len(),
        i == toks.len(),
{
    law_no_expression_parses(toks, i);
}

/// `parse` gives exactly what `parse_score` gives from the same parser state.
pub proof fn law_parse_is_parse_score(p: Parser)
    ensures
        p.parse_outcome() == p.score_parse_outcome(),
{
}

/// A score is its expressions in order: at the end of the list it is the
/// expressions read so far; otherwise one expression is read, and on
/// success the score goes on from where it ended (at least one token
/// further, within the list), while its failure is the score's failure.
pub proof fn law_score_is_expressions_in_order(toks: Seq<SpecTokenType>, i: int, acc: Seq<Seq<SpecTokenType>>)
    requires
        0 <= i,
    ensures
        i >= toks.len() ==> score_outcome(toks, i, acc) == (Ok::<_, ErrorView>(acc), i),
        i < toks.len() ==> match expr_outcome(toks, i) {
            (Ok(c), j) => i < j <= toks.len() && score_outcome(toks, i, acc) == score_outcome(toks, j, acc.push(c)),
            (Err(e), j) => score_outcome(toks, i, acc) == (Err::<Seq<Seq<SpecTokenType>>, _>(e), j),
        },
{
    law_no_expression_parses(toks, i);
}

/// An expression is chosen by its first token, which `~`, `#` and `/`
/// consume: then what the series, chord or rhythm parser gives from the
/// next token is the expression's result; an identifier is left to the
/// assignment parser.
pub proof fn law_expr_delegates(toks: Seq<SpecTokenType>, i: int)
    requires
        0 <= i,
    ensures
        peek_at(toks, i) == Some(TokenKind::<Seq<char>>::Tilde) ==> expr_outcome(toks, i)
            == (Err::<Seq<SpecTokenType>, _>(series_outcome(toks, i + 1).0), series_outcome(toks, i + 1).1),
        peek_at(toks, i) == Some(TokenKind::<Seq<char>>::Hash) ==> expr_outcome(toks, i) == parallel_outcome(toks, i + 1),
        peek_at(toks, i) == Some(TokenKind::<Seq<char>>::ForwardSlash) ==> expr_outcome(toks, i)
            == (Err::<Seq<SpecTokenType>, _>(rhythm_outcome(toks, i + 1).0), rhythm_outcome(toks, i + 1).1),
        peek_at(toks, i) matches Some(TokenKind::Identifier(_)) ==> expr_outcome(toks, i)
            == (Err::<Seq<SpecTokenType>, _>(assignment_outcome(toks, i).0), assignment_outcome(toks, i).1),
{
}

/// After a name, the rhythm and series assignments give what the rhythm
/// and series parsers give from the next token.
pub proof fn law_assignments_delegate(toks: Seq<SpecTokenType>, i: int)
    requires
        0 <= i,
        peek_at(toks, i) matches Some(TokenKind::Identifier(_)),
    ensures
        rhythm_assignment_outcome(toks, i) == rhythm_outcome(toks, i + 1),
        series_assignment_outcome(toks, i) == series_outcome(toks, i + 1),
{
}

/// After a name, the parallel assignment gives the name with the chord
/// that the chord parser reads from the next token, or that parser's
/// failure, and ends where the chord parser ends.
pub proof fn law_parallel_assignment_delegates(toks: Seq<SpecTokenType>, i: int, name: Seq<char>)
    requires
        0 <= i,
        peek_at(toks, i) == Some(TokenKind::<Seq<char>>::Identifier(name)),
    ensures
        parallel_assignment_outcome(toks, i) == match parallel_outcome(toks, i + 1) {
            (Ok(c), j) => (Ok::<_, ErrorView>((TokenKind::<Seq<char>>::Identifier(name), c)), j),
            (Err(e), j) => (Err(e), j),
        },
{
}

} // verus!
