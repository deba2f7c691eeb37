//! The parser of the template language.
//!
//! A template is a sequence of entries `KEY = value`, where a value is a
//! scalar token (identifier, string or number) forming a pair, or a
//! bracketed group of comma-separated `KEY = scalar` members forming a
//! vector. Comment tokens never reach the grammar: the parser skips them
//! wherever it reads a token.
//!
//! A structural mismatch fails the whole parse with the offending token
//! and the expected category; no partial document is returned. At the top
//! level, a token that cannot start an entry ends parsing early with the
//! document built so far; after a closed group, one optional comma is
//! accepted.

use crate::errors::{Errors, Expected};
use crate::template::builder::{Builder, DocModel};
use crate::template::elements::{PairModel, Vector};
use crate::template::lexer::{lemma_lex_at_bounds, lex_at, Lexer};
use crate::template::token::{Tok, Tokens};
use vstd::prelude::*;

verus! {

/// The model of a parse error: the token met, and the expected category.
pub type ParseErrModel = (Tok, Expected);

/// The next token that is no comment, and the cursor past it.
pub open spec fn lex_nc(s: Seq<char>, i: int) -> (Tok, int)
    decreases s.len() - i,
    when 0 <= i <= s.len()
{
    let (t, j) = lex_at(s, i);
    if t is Comment {
        proof {
            lemma_lex_at_bounds(s, i);
        }
        lex_nc(s, j)
    } else {
        (t, j)
    }
}

/// Comment skipping stays inside the input, lands on no comment, and
/// consumes at least one character except at the end of input or on an
/// illegal character.
pub proof fn lemma_lex_nc_bounds(s: Seq<char>, i: int)
    requires
        0 <= i <= s.len(),
    ensures
        ({
            let (t, j) = lex_nc(s, i);
            &&& i <= j <= s.len()
            &&& !(t is Comment)
            &&& (!(t is Eof) && !(t is Illegal)) ==> j > i
        }),
    decreases s.len() - i,
{
    lemma_lex_at_bounds(s, i);
    let (t0, j0) = lex_at(s, i);
    if t0 is Comment {
        lemma_lex_nc_bounds(s, j0);
    }
}

/// The text a scalar token carries; a non-scalar carries none.
pub open spec fn scalar_of(t: Tok) -> Option<Seq<char>> {
    match t {
        Tok::Ident(v) => Some(v),
        Tok::Str(v) => Some(v),
        Tok::Number(v) => Some(v),
        _ => None,
    }
}

/// The members of a group being parsed at `i` (just inside `[`), and the
/// cursor past the closing bracket: `IDENT = scalar` members separated by
/// commas, a trailing comma allowed, the empty group allowed.
pub open spec fn parse_members(s: Seq<char>, i: int) -> Result<
    (Seq<PairModel>, int),
    ParseErrModel,
>
    decreases s.len() - i,
    when 0 <= i <= s.len()
{
    let (t, j) = lex_nc(s, i);
    match t {
        Tok::RSBracket => Ok((Seq::empty(), j)),
        Tok::Ident(k) => {
            let (t2, j2) = lex_nc(s, j);
            if !(t2 is Assign) {
                Err((t2, Expected::Assign))
            } else {
                let (t3, j3) = lex_nc(s, j2);
                match scalar_of(t3) {
                    Some(v) => {
                        let (t4, j4) = lex_nc(s, j3);
                        match t4 {
                            Tok::RSBracket => Ok((seq![(k, v)], j4)),
                            Tok::Comma => {
                                proof {
                                    lemma_lex_nc_bounds(s, i);
                                    lemma_lex_nc_bounds(s, j);
                                    lemma_lex_nc_bounds(s, j2);
                                    lemma_lex_nc_bounds(s, j3);
                                }
                                match parse_members(s, j4) {
                                    Ok((rest, end)) => Ok((seq![(k, v)] + rest, end)),
                                    Err(e) => Err(e),
                                }
                            },
                            _ => Err((t4, Expected::Comma)),
                        }
                    },
                    None => Err((t3, Expected::Value)),
                }
            }
        },
        _ => Err((t, Expected::Ident)),
    }
}

/// Parsing a group ends inside the input, past where it started.
pub proof fn lemma_parse_members_bounds(s: Seq<char>, i: int)
    requires
        0 <= i <= s.len(),
    ensures
        parse_members(s, i) matches Ok((ms, end)) ==> i < end <= s.len(),
    decreases s.len() - i,
{
    lemma_lex_nc_bounds(s, i);
    let (t, j) = lex_nc(s, i);
    match t {
        Tok::Ident(k) => {
            lemma_lex_nc_bounds(s, j);
            let (t2, j2) = lex_nc(s, j);
            if t2 is Assign {
                lemma_lex_nc_bounds(s, j2);
                let (t3, j3) = lex_nc(s, j2);
                if scalar_of(t3) is Some {
                    lemma_lex_nc_bounds(s, j3);
                    let (t4, j4) = lex_nc(s, j3);
                    if t4 is Comma {
                        lemma_parse_members_bounds(s, j4);
                    }
                }
            }
        },
        _ => {},
    }
}

/// The document parsed from `i` on: entries in order, each pair appended
/// to the pairs and each vector to the vectors. A token that cannot start
/// an entry ends parsing early with what was built; a structural mismatch
/// inside an entry fails the whole parse.
pub open spec fn parse_doc_from(s: Seq<char>, i: int) -> Result<DocModel, ParseErrModel>
    decreases s.len() - i,
    when 0 <= i <= s.len()
{
    let (t, j) = lex_nc(s, i);
    match t {
        Tok::Eof => Ok(DocModel { pairs: Seq::empty(), vectors: Seq::empty() }),
        Tok::Ident(k) => {
            let (t2, j2) = lex_nc(s, j);
            if !(t2 is Assign) {
                Err((t2, Expected::Assign))
            } else {
                let (t3, j3) = lex_nc(s, j2);
                if t3 is LSBracket {
                    proof {
                        lemma_lex_nc_bounds(s, i);
                        lemma_lex_nc_bounds(s, j);
                        lemma_lex_nc_bounds(s, j2);
                    }
                    match parse_members(s, j3) {
                        Ok((ms, end)) => {
                            proof {
                                lemma_parse_members_bounds(s, j3);
                                lemma_lex_nc_bounds(s, end);
                            }
                            let (t5, j5) = lex_nc(s, end);
                            let cont = if t5 is Comma {
                                j5
                            } else {
                                end
                            };
                            match parse_doc_from(s, cont) {
                                Ok(d) => Ok(
                                    DocModel {
                                        pairs: d.pairs,
                                        vectors: seq![(k, ms)] + d.vectors,
                                    },
                                ),
                                Err(e) => Err(e),
                            }
                        },
                        Err(e) => Err(e),
                    }
                } else {
                    match scalar_of(t3) {
                        Some(v) => {
                            proof {
                                lemma_lex_nc_bounds(s, i);
                                lemma_lex_nc_bounds(s, j);
                                lemma_lex_nc_bounds(s, j2);
                            }
                            match parse_doc_from(s, j3) {
                                Ok(d) => Ok(
                                    DocModel {
                                        pairs: seq![(k, v)] + d.pairs,
                                        vectors: d.vectors,
                                    },
                                ),
                                Err(e) => Err(e),
                            }
                        },
                        None => Err((t3, Expected::Value)),
                    }
                }
            }
        },
        _ => Ok(DocModel { pairs: Seq::empty(), vectors: Seq::empty() }),
    }
}

/// The document already built, extended by the rest of the parse.
pub open spec fn merge_doc(acc: DocModel, rest: Result<DocModel, ParseErrModel>) -> Result<
    DocModel,
    ParseErrModel,
> {
    match rest {
        Ok(d) => Ok(DocModel { pairs: acc.pairs + d.pairs, vectors: acc.vectors + d.vectors }),
        Err(e) => Err(e),
    }
}

/// Reads tokens until one is no comment.
fn next_nc(lexer: &mut Lexer) -> (r: Tokens)
    requires
        old(lexer).wf(),
    ensures
        final(lexer).wf(),
        final(lexer).input() == old(lexer).input(),
        r@ == lex_nc(old(lexer).input(), old(lexer).cursor()).0,
        final(lexer).cursor() == lex_nc(old(lexer).input(), old(lexer).cursor()).1,
{
    let ghost s = lexer.input();
    let ghost c0 = lexer.cursor();
    let mut t = lexer.next_token();
    loop
        invariant
            lexer.wf(),
            lexer.input() == s,
            0 <= c0 <= s.len(),
            lex_nc(s, c0) == if t@ is Comment {
                lex_nc(s, lexer.cursor())
            } else {
                (t@, lexer.cursor())
            },
        ensures
            lexer.wf(),
            lexer.input() == s,
            !(t@ is Comment),
            (t@, lexer.cursor()) == lex_nc(s, c0),
        decreases s.len() - lexer.cursor(), (if t@ is Comment {
            1int
        } else {
            0int
        }),
    {
        match &t {
            Tokens::Comment => {},
            _ => {
                break ;
            },
        }
        proof {
            lemma_lex_at_bounds(s, lexer.cursor());
        }
        t = lexer.next_token();
    }
    t
}

/// Parses a whole template text into a document, or fails with the
/// offending token and the expected category.
pub fn parse_template_text(text: &str) -> (r: Result<Builder, Errors>)
    ensures
        match (r, parse_doc_from(text@, 0)) {
            (Ok(b), Ok(d)) => b@ == d,
            (Err(e), Err(pe)) => e matches Errors::Parser(tk, ex) && tk@ == pe.0 && ex == pe.1,
            _ => false,
        },
{
    let mut parser = Parser::new(text);
    parser.parse()
}

/// A parser over a template text, holding one token of lookahead.
pub struct Parser {
    lexer: Lexer,
    token: Tokens,
    cur: Ghost<int>,
}

impl Parser {
    /// The input being parsed.
    pub closed spec fn input(&self) -> Seq<char> {
        self.lexer.input()
    }

    /// The position at which the next unconsumed token starts.
    pub closed spec fn start(&self) -> int {
        self.cur@
    }

    /// The lookahead token was lexed at the current position.
    pub closed spec fn wf(&self) -> bool {
        &&& self.lexer.wf()
        &&& 0 <= self.cur@ <= self.lexer.input().len()
        &&& self.token@ == lex_nc(self.lexer.input(), self.cur@).0
        &&& self.lexer.cursor() == lex_nc(self.lexer.input(), self.cur@).1
    }

    /// A parser at the start of the given input, with the first token
    /// read.
    pub fn new(input: &str) -> (r: Self)
        ensures
            r.wf(),
            r.input() == input@,
            r.start() == 0,
    {
        let mut lexer = Lexer::new(input);
        let token = next_nc(&mut lexer);
        Parser { lexer, token, cur: Ghost(0) }
    }

    /// Consumes the lookahead token and reads the next one.
    fn read_token(&mut self)
        requires
            old(self).wf(),
        ensures
            final(self).wf(),
            final(self).input() == old(self).input(),
            final(self).start() == lex_nc(old(self).input(), old(self).start()).1,
    {
        proof {
            lemma_lex_nc_bounds(self.lexer.input(), self.cur@);
        }
        let ghost c = self.lexer.cursor();
        let t = next_nc(&mut self.lexer);
        self.token = t;
        self.cur = Ghost(c);
    }

    /// Parses the whole input into a document, or fails with the
    /// offending token and the expected category, returning no partial
    /// document.
    #[verifier::loop_isolation(false)]
    #[verifier::rlimit(100)]
    pub fn parse(&mut self) -> (r: Result<Builder, Errors>)
        requires
            old(self).wf(),
        ensures
            final(self).input() == old(self).input(),
            match (r, parse_doc_from(old(self).input(), old(self).start())) {
                (Ok(b), Ok(d)) => b@ == d,
                (Err(e), Err(pe)) => e matches Errors::Parser(tk, ex) && tk@ == pe.0 && ex
                    == pe.1,
                _ => false,
            },
    {
        let ghost s = self.input();
        let ghost c0 = self.start();
        let mut template = Builder::new();
        proof {
            match parse_doc_from(s, c0) {
                Ok(d) => {
                    assert((DocModel {
                        pairs: template@.pairs + d.pairs,
                        vectors: template@.vectors + d.vectors,
                    }) =~= d);
                },
                Err(_) => {},
            }
        }
        loop
            invariant
                self.wf(),
                self.input() == s,
                parse_doc_from(s, c0) == merge_doc(template@, parse_doc_from(s, self.start())),
            decreases s.len() - self.start(),
        {
            let ghost cur_e = self.start();
            let ghost tj1 = lex_nc(s, cur_e);
            let tok = self.token.clone();
            match tok {
                Tokens::Eof => {
                    proof {
                        assert(parse_doc_from(s, cur_e) == Ok::<DocModel, ParseErrModel>(
                            DocModel { pairs: Seq::empty(), vectors: Seq::empty() },
                        ));
                        assert((DocModel {
                            pairs: template@.pairs + Seq::<PairModel>::empty(),
                            vectors: template@.vectors + Seq::empty(),
                        }) =~= template@);
                    }
                    return Ok(template);
                },
                Tokens::Ident(k0) => {
                    let key = k0;
                    proof {
                        lemma_lex_nc_bounds(s, cur_e);
                    }
                    self.read_token();
                    let ghost tj2 = lex_nc(s, tj1.1);
                    let atok = self.token.clone();
                    match atok {
                        Tokens::Assign => {},
                        _ => {
                            proof {
                                assert(parse_doc_from(s, cur_e) == Err::<DocModel, ParseErrModel>(
                                    (tj2.0, Expected::Assign),
                                ));
                            }
                            return Err(Errors::Parser(atok, Expected::Assign));
                        },
                    }
                    proof {
                        lemma_lex_nc_bounds(s, tj1.1);
                    }
                    self.read_token();
                    let ghost tj3 = lex_nc(s, tj2.1);
                    let vtok = self.token.clone();
                    match vtok {
                        Tokens::Ident(v) | Tokens::String(v) | Tokens::Number(v) => {
                            proof {
                                lemma_lex_nc_bounds(s, tj2.1);
                                assert(scalar_of(tj3.0) == Some(v@));
                            }
                            let ghost before = template@;
                            template.put_str(key.as_str(), v.as_str());
                            self.read_token();
                            proof {
                                match parse_doc_from(s, tj3.1) {
                                    Ok(d) => {
                                        assert(template@.pairs + d.pairs =~= before.pairs + (
                                        seq![(key@, v@)] + d.pairs));
                                        assert(template@.vectors + d.vectors =~= before.vectors
                                            + d.vectors);
                                        assert(merge_doc(
                                            template@,
                                            parse_doc_from(s, self.start()),
                                        ) == merge_doc(before, parse_doc_from(s, cur_e)));
                                    },
                                    Err(_) => {},
                                }
                            }
                        },
                        Tokens::LSBracket => {
                            proof {
                                lemma_lex_nc_bounds(s, tj2.1);
                            }
                            self.read_token();
                            let ghost mstart = self.start();
                            let mut vec = Vector::new(key.as_str());
                            let mut closed = false;
                            while !closed
                                invariant
                                    self.wf(),
                                    self.input() == s,
                                    vec@.0 == key@,
                                    !closed ==> match parse_members(s, self.start()) {
                                        Ok((ms, end)) => parse_members(s, mstart) == Ok::<
                                            (Seq<PairModel>, int),
                                            ParseErrModel,
                                        >((vec@.1 + ms, end)),
                                        Err(e) => parse_members(s, mstart) == Err::<
                                            (Seq<PairModel>, int),
                                            ParseErrModel,
                                        >(e),
                                    },
                                    closed ==> parse_members(s, mstart) == Ok::<
                                        (Seq<PairModel>, int),
                                        ParseErrModel,
                                    >((vec@.1, self.start())),
                                decreases s.len() - self.start(),
                            {
                                let ghost mcur = self.start();
                                let ghost mj1 = lex_nc(s, mcur);
                                let mtok = self.token.clone();
                                match mtok {
                                    Tokens::RSBracket => {
                                        proof {
                                            lemma_lex_nc_bounds(s, mcur);
                                            assert(vec@.1 + Seq::<PairModel>::empty()
                                                =~= vec@.1);
                                        }
                                        self.read_token();
                                        closed = true;
                                    },
                                    Tokens::Ident(mk0) => {
                                        let mkey = mk0;
                                        proof {
                                            lemma_lex_nc_bounds(s, mcur);
                                        }
                                        self.read_token();
                                        let ghost mj2 = lex_nc(s, mj1.1);
                                        let matok = self.token.clone();
                                        match matok {
                                            Tokens::Assign => {},
                                            _ => {
                                                proof {
                                                    assert(parse_members(s, mcur) == Err::<
                                                        (Seq<PairModel>, int),
                                                        ParseErrModel,
                                                    >((mj2.0, Expected::Assign)));
                                                }
                                                return Err(
                                                    Errors::Parser(matok, Expected::Assign),
                                                );
                                            },
                                        }
                                        proof {
                                            lemma_lex_nc_bounds(s, mj1.1);
                                        }
                                        self.read_token();
                                        let ghost mj3 = lex_nc(s, mj2.1);
                                        let mvtok = self.token.clone();
                                        match mvtok {
                                            Tokens::Ident(mv) | Tokens::String(mv)
                                                | Tokens::Number(mv) => {
                                                proof {
                                                    lemma_lex_nc_bounds(s, mj2.1);
                                                    assert(scalar_of(mj3.0) == Some(mv@));
                                                }
                                                let ghost vbefore = vec@.1;
                                                vec.put_str(mkey.as_str(), mv.as_str());
                                                self.read_token();
                                                let ghost mj4 = lex_nc(s, mj3.1);
                                                let mstok = self.token.clone();
                                                match mstok {
                                                    Tokens::Comma => {
                                                        proof {
                                                            lemma_lex_nc_bounds(s, mj3.1);
                                                        }
                                                        self.read_token();
                                                        proof {
                                                            match parse_members(
                                                                s,
                                                                self.start(),
                                                            ) {
                                                                Ok((ms, end)) => {
                                                                    assert(vec@.1 + ms
                                                                        =~= vbefore + (seq![
                                                                        (mkey@, mv@),
                                                                    ] + ms));
                                                                },
                                                                Err(_) => {},
                                                            }
                                                        }
                                                    },
                                                    Tokens::RSBracket => {
                                                        proof {
                                                            match parse_members(
                                                                s,
                                                                self.start(),
                                                            ) {
                                                                Ok((ms, end)) => {
                                                                    assert(ms
                                                                        =~= Seq::<
                                                                        PairModel,
                                                                    >::empty());
                                                                    assert(vec@.1 + ms
                                                                        =~= vbefore + seq![
                                                                        (mkey@, mv@),
                                                                    ]);
                                                                },
                                                                Err(_) => {},
                                                            }
                                                        }
                                                    },
                                                    _ => {
                                                        proof {
                                                            assert(parse_members(s, mcur)
                                                                == Err::<
                                                                (Seq<PairModel>, int),
                                                                ParseErrModel,
                                                            >((mj4.0, Expected::Comma)));
                                                        }
                                                        return Err(
                                                            Errors::Parser(
                                                                mstok,
                                                                Expected::Comma,
                                                            ),
                                                        );
                                                    },
                                                }
                                            },
                                            _ => {
                                                proof {
                                                    assert(parse_members(s, mcur) == Err::<
                                                        (Seq<PairModel>, int),
                                                        ParseErrModel,
                                                    >((mj3.0, Expected::Value)));
                                                }
                                                return Err(
                                                    Errors::Parser(mvtok, Expected::Value),
                                                );
                                            },
                                        }
                                    },
                                    _ => {
                                        proof {
                                            assert(parse_members(s, mcur) == Err::<
                                                (Seq<PairModel>, int),
                                                ParseErrModel,
                                            >((mj1.0, Expected::Ident)));
                                        }
                                        return Err(Errors::Parser(mtok, Expected::Ident));
                                    },
                                }
                            }
                            proof {
                                lemma_parse_members_bounds(s, mstart);
                                lemma_lex_nc_bounds(s, self.start());
                            }
                            let ghost mend = self.start();
                            let ghost tj5 = lex_nc(s, mend);
                            let stok = self.token.clone();
                            match stok {
                                Tokens::Comma => {
                                    self.read_token();
                                },
                                _ => {},
                            }
                            let ghost before = template@;
                            let ghost members = vec@.1;
                            template.put_vector(vec);
                            proof {
                                match parse_doc_from(s, self.start()) {
                                    Ok(d) => {
                                        assert(template@.pairs + d.pairs =~= before.pairs
                                            + d.pairs);
                                        assert(template@.vectors + d.vectors =~= before.vectors
                                            + (seq![(key@, members)] + d.vectors));
                                        assert(merge_doc(
                                            template@,
                                            parse_doc_from(s, self.start()),
                                        ) == merge_doc(before, parse_doc_from(s, cur_e)));
                                    },
                                    Err(_) => {},
                                }
                            }
                        },
                        _ => {
                            proof {
                                assert(scalar_of(tj3.0) is None);
                                assert(parse_doc_from(s, cur_e) == Err::<DocModel, ParseErrModel>(
                                    (tj3.0, Expected::Value),
                                ));
                            }
                            return Err(Errors::Parser(vtok, Expected::Value));
                        },
                    }
                },
                _ => {
                    proof {
                        assert(parse_doc_from(s, cur_e) == Ok::<DocModel, ParseErrModel>(
                            DocModel { pairs: Seq::empty(), vectors: Seq::empty() },
                        ));
                        assert((DocModel {
                            pairs: template@.pairs + Seq::<PairModel>::empty(),
                            vectors: template@.vectors + Seq::empty(),
                        }) =~= template@);
                    }
                    return Ok(template);
                },
            }
        }
    }
}

} // verus!
