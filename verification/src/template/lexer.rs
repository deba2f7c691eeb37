//! The lexer of the template language.
//!
//! Given a text buffer and a cursor over it, each call to
//! [`Lexer::next_token`] produces one token and advances the cursor, until
//! end-of-input is reported; further calls keep reporting end-of-input.
//! The lexer itself never fails: a character no rule covers comes back as
//! an `Illegal` token, and rejection is the parser's job.

use crate::strutil::push_char;
use crate::template::token::{Tok, Tokens};
use vstd::prelude::*;

verus! {

/// What `char::is_whitespace` holds of a character; runs of these are
/// skipped before each token.
pub uninterp spec fn is_whitespace_char(c: char) -> bool;

/// What `char::is_alphabetic` holds of a character; identifiers start
/// with one.
pub uninterp spec fn is_alphabetic_char(c: char) -> bool;

/// What `char::is_numeric` holds of a character; numbers are runs of
/// these.
pub uninterp spec fn is_numeric_char(c: char) -> bool;

/// What `char::is_alphanumeric` holds of a character: alphabetic or
/// numeric, as std documents it. Identifiers continue through these.
pub open spec fn is_alphanumeric_char(c: char) -> bool {
    is_alphabetic_char(c) || is_numeric_char(c)
}

/// Relies on `char::is_whitespace`: the result depends on the character
/// alone.
pub assume_specification[ char::is_whitespace ](c: char) -> (r: bool)
    ensures
        r == is_whitespace_char(c),
;

/// Relies on `char::is_alphabetic`: the result depends on the character
/// alone.
pub assume_specification[ char::is_alphabetic ](c: char) -> (r: bool)
    ensures
        r == is_alphabetic_char(c),
;

/// Relies on `char::is_alphanumeric`: the result depends on the character
/// alone and holds exactly when the character is alphabetic or numeric.
pub assume_specification[ char::is_alphanumeric ](c: char) -> (r: bool)
    ensures
        r == is_alphanumeric_char(c),
;

/// Relies on `char::is_numeric`: the result depends on the character
/// alone.
pub assume_specification[ char::is_numeric ](c: char) -> (r: bool)
    ensures
        r == is_numeric_char(c),
;

/// A character that may continue an identifier.
pub open spec fn is_ident_char(c: char) -> bool {
    is_alphanumeric_char(c) || c == '_' || c == '-' || c == '\''
}

/// The identifier-continuation class, as a predicate value.
pub open spec fn ident_pred() -> spec_fn(char) -> bool {
    |c: char| is_ident_char(c)
}

/// The digit class, as a predicate value.
pub open spec fn num_pred() -> spec_fn(char) -> bool {
    |c: char| is_numeric_char(c)
}

/// The comment-continuation class: everything up to a line end.
pub open spec fn comment_pred() -> spec_fn(char) -> bool {
    |c: char| c != '\n'
}

/// The first position at or after `i` holding no whitespace.
pub open spec fn skip_ws(s: Seq<char>, i: int) -> int
    decreases s.len() - i,
    when 0 <= i <= s.len()
{
    if i < s.len() && is_whitespace_char(s[i]) {
        skip_ws(s, i + 1)
    } else {
        i
    }
}

/// The end of the run of characters satisfying `pred` that starts at `i`.
pub open spec fn scan_run(s: Seq<char>, i: int, pred: spec_fn(char) -> bool) -> int
    decreases s.len() - i,
    when 0 <= i <= s.len()
{
    if i < s.len() && pred(s[i]) {
        scan_run(s, i + 1, pred)
    } else {
        i
    }
}

/// One escape step inside a string, entered just past a kept backslash:
/// each of `\`, `\`, `"`, `r`, `n` in turn is copied through when it is
/// the current character.
pub open spec fn scan_esc(s: Seq<char>, i: int) -> (Seq<char>, int)
    recommends
        0 <= i < s.len(),
{
    let (o1, j1) = if s[i] == '\\' {
        (seq!['\\'], i + 1)
    } else {
        (Seq::<char>::empty(), i)
    };
    let (o2, j2) = if j1 < s.len() && s[j1] == '\\' {
        (o1.push('\\'), j1 + 1)
    } else {
        (o1, j1)
    };
    let (o3, j3) = if j2 < s.len() && s[j2] == '"' {
        (o2.push('"'), j2 + 1)
    } else {
        (o2, j2)
    };
    let (o4, j4) = if j3 < s.len() && s[j3] == 'r' {
        (o3.push('r'), j3 + 1)
    } else {
        (o3, j3)
    };
    let (o5, j5) = if j4 < s.len() && s[j4] == 'n' {
        (o4.push('n'), j4 + 1)
    } else {
        (o4, j4)
    };
    (o5, j5)
}

/// The content of a string token being scanned at `i`, and the position
/// of its closing quote (or the input's end): characters are copied until
/// an unescaped quote, with backslash escape text passed through
/// verbatim.
pub open spec fn scan_str(s: Seq<char>, i: int) -> (Seq<char>, int)
    decreases s.len() - i,
    when 0 <= i <= s.len()
{
    if i >= s.len() {
        (Seq::<char>::empty(), i)
    } else if s[i] == '"' {
        (Seq::<char>::empty(), i)
    } else {
        let c = s[i];
        let i1 = i + 1;
        if i1 < s.len() && s[i1] == '\\' {
            let i2 = i1 + 1;
            if i2 >= s.len() {
                (seq![c, '\\'], i2)
            } else {
                let (e, j) = scan_esc(s, i2);
                let (rest, k) = scan_str(s, j);
                (seq![c, '\\'] + e + rest, k)
            }
        } else {
            let (rest, k) = scan_str(s, i1);
            (seq![c] + rest, k)
        }
    }
}

/// The token starting at `i` (after leading whitespace), and the cursor
/// position after it. An illegal character is reported without being
/// consumed; end of input reports `Eof` forever.
pub open spec fn lex_at(s: Seq<char>, i: int) -> (Tok, int)
    recommends
        0 <= i <= s.len(),
{
    let j = skip_ws(s, i);
    if j >= s.len() {
        (Tok::Eof, j)
    } else {
        let c = s[j];
        if c == '[' {
            (Tok::LSBracket, j + 1)
        } else if c == ']' {
            (Tok::RSBracket, j + 1)
        } else if c == '=' {
            (Tok::Assign, j + 1)
        } else if c == '"' {
            let (content, k) = scan_str(s, j + 1);
            (Tok::Str(content), if k < s.len() {
                k + 1
            } else {
                k
            })
        } else if c == ',' {
            (Tok::Comma, j + 1)
        } else if c == '#' {
            (Tok::Comment, scan_run(s, j, comment_pred()))
        } else if is_alphabetic_char(c) {
            let k = scan_run(s, j, ident_pred());
            (Tok::Ident(s.subrange(j, k)), k)
        } else if is_numeric_char(c) {
            let k = scan_run(s, j, num_pred());
            (Tok::Number(s.subrange(j, k)), k)
        } else {
            (Tok::Illegal(c), j)
        }
    }
}

/// Skipping whitespace stays inside the input and stops before a
/// non-whitespace character.
pub proof fn lemma_skip_ws_bounds(s: Seq<char>, i: int)
    requires
        0 <= i <= s.len(),
    ensures
        i <= skip_ws(s, i) <= s.len(),
        skip_ws(s, i) < s.len() ==> !is_whitespace_char(s[skip_ws(s, i)]),
    decreases s.len() - i,
{
    if i < s.len() && is_whitespace_char(s[i]) {
        lemma_skip_ws_bounds(s, i + 1);
    }
}

/// A character run ends inside the input, and past its first character
/// when that one satisfies the predicate.
pub proof fn lemma_scan_run_bounds(s: Seq<char>, i: int, pred: spec_fn(char) -> bool)
    requires
        0 <= i <= s.len(),
    ensures
        i <= scan_run(s, i, pred) <= s.len(),
        i < s.len() && pred(s[i]) ==> scan_run(s, i, pred) > i,
    decreases s.len() - i,
{
    if i < s.len() && pred(s[i]) {
        lemma_scan_run_bounds(s, i + 1, pred);
    }
}

/// String scanning ends inside the input, at or past where it started.
pub proof fn lemma_scan_str_bounds(s: Seq<char>, i: int)
    requires
        0 <= i <= s.len(),
    ensures
        i <= scan_str(s, i).1 <= s.len(),
    decreases s.len() - i,
{
    if i < s.len() && s[i] != '"' {
        let i1 = i + 1;
        if i1 < s.len() && s[i1] == '\\' {
            let i2 = i1 + 1;
            if i2 < s.len() {
                let j = scan_esc(s, i2).1;
                lemma_scan_str_bounds(s, j);
            }
        } else {
            lemma_scan_str_bounds(s, i1);
        }
    }
}

/// One lexing step stays inside the input, and consumes at least one
/// character unless it reports the end of input or an illegal character.
pub proof fn lemma_lex_at_bounds(s: Seq<char>, i: int)
    requires
        0 <= i <= s.len(),
    ensures
        ({
            let (t, j) = lex_at(s, i);
            &&& i <= j <= s.len()
            &&& (!(t is Eof) && !(t is Illegal)) ==> j > i
        }),
{
    lemma_skip_ws_bounds(s, i);
    let j0 = skip_ws(s, i);
    if j0 < s.len() {
        let c = s[j0];
        if c == '"' {
            lemma_scan_str_bounds(s, j0 + 1);
        } else if c == '#' {
            lemma_scan_run_bounds(s, j0, comment_pred());
        } else if is_alphabetic_char(c) {
            lemma_scan_run_bounds(s, j0, ident_pred());
        } else if is_numeric_char(c) {
            lemma_scan_run_bounds(s, j0, num_pred());
        }
    }
}

/// A character that may continue an identifier.
fn is_ident_char_exec(c: char) -> (r: bool)
    ensures
        r == is_ident_char(c),
{
    c.is_alphanumeric() || c == '_' || c == '-' || c == '\''
}

/// A cursor over a template text, handing out one token per call.
pub struct Lexer {
    chars: Vec<char>,
    pos: usize,
}

impl Lexer {
    /// The input being lexed.
    pub closed spec fn input(&self) -> Seq<char> {
        self.chars@
    }

    /// The cursor: the next unread position.
    pub closed spec fn cursor(&self) -> int {
        self.pos as int
    }

    /// The cursor stands inside the input.
    pub open spec fn wf(&self) -> bool {
        0 <= self.cursor() <= self.input().len()
    }

    /// A lexer at the start of the given input.
    pub fn new(input: &str) -> (r: Self)
        ensures
            r.input() == input@,
            r.cursor() == 0,
            r.wf(),
    {
        let n = input.unicode_len();
        let mut chars: Vec<char> = Vec::new();
        let mut i: usize = 0;
        while i < n
            invariant
                i <= n,
                n == input@.len(),
                chars@ == input@.subrange(0, i as int),
            decreases n - i,
        {
            chars.push(input.get_char(i));
            proof {
                crate::seq_lemmas::lemma_subrange_push(input@, i as int);
            }
            i += 1;
        }
        proof {
            crate::seq_lemmas::lemma_subrange_all(input@);
        }
        Lexer { chars, pos: 0 }
    }

    /// Produces the next token and advances the cursor past it.
    #[verifier::rlimit(60)]
    pub fn next_token(&mut self) -> (r: Tokens)
        requires
            old(self).wf(),
        ensures
            final(self).input() == old(self).input(),
            final(self).wf(),
            r@ == lex_at(old(self).input(), old(self).cursor()).0,
            final(self).cursor() == lex_at(old(self).input(), old(self).cursor()).1,
    {
        let ghost s = self.input();
        let ghost start = self.cursor();
        let n = self.chars.len();
        while self.pos < n && self.chars[self.pos].is_whitespace()
            invariant
                s == self.input(),
                n == s.len(),
                self.wf(),
                skip_ws(s, start) == skip_ws(s, self.cursor()),
            decreases n - self.pos,
        {
            self.pos += 1;
        }
        proof {
            assert(skip_ws(s, self.cursor()) == self.cursor());
        }
        if self.pos >= n {
            return Tokens::Eof;
        }
        let ghost j = self.cursor();
        let c = self.chars[self.pos];
        if c == '[' {
            self.pos += 1;
            Tokens::LSBracket
        } else if c == ']' {
            self.pos += 1;
            Tokens::RSBracket
        } else if c == '=' {
            self.pos += 1;
            Tokens::Assign
        } else if c == '"' {
            self.pos += 1;
            let ghost sstart = self.cursor();
            let mut val = String::new();
            loop
                invariant
                    s == self.input(),
                    n == s.len(),
                    self.wf(),
                    sstart <= self.cursor(),
                    scan_str(s, sstart).0 == val@ + scan_str(s, self.cursor()).0,
                    scan_str(s, sstart).1 == scan_str(s, self.cursor()).1,
                ensures
                    self.wf(),
                    s == self.input(),
                    scan_str(s, sstart).0 == val@,
                    scan_str(s, sstart).1 == self.cursor(),
                    self.cursor() >= n || s[self.cursor()] == '"',
                decreases n - self.pos,
            {
                if self.pos >= n {
                    proof {
                        assert(scan_str(s, self.cursor()).0 =~= Seq::<char>::empty());
                        assert(scan_str(s, sstart).0 =~= val@);
                    }
                    break ;
                }
                let ch = self.chars[self.pos];
                if ch == '"' {
                    proof {
                        assert(scan_str(s, self.cursor()).0 =~= Seq::<char>::empty());
                        assert(scan_str(s, sstart).0 =~= val@);
                    }
                    break ;
                }
                let ghost p0 = self.cursor();
                let ghost v0 = val@;
                push_char(&mut val, ch);
                self.pos += 1;
                if self.pos < n && self.chars[self.pos] == '\\' {
                    push_char(&mut val, '\\');
                    self.pos += 1;
                    if self.pos >= n {
                        proof {
                            assert(scan_str(s, p0).0 =~= seq![ch, '\\']);
                            assert(val@ =~= v0 + seq![ch, '\\']);
                            assert(scan_str(s, self.cursor()).0 =~= Seq::<char>::empty());
                            assert(scan_str(s, sstart).0 =~= val@);
                        }
                        break ;
                    }
                    let ghost i2 = self.cursor();
                    if self.chars[self.pos] == '\\' {
                        push_char(&mut val, '\\');
                        self.pos += 1;
                    }
                    if self.pos < n && self.chars[self.pos] == '\\' {
                        push_char(&mut val, '\\');
                        self.pos += 1;
                    }
                    if self.pos < n && self.chars[self.pos] == '"' {
                        push_char(&mut val, '"');
                        self.pos += 1;
                    }
                    if self.pos < n && self.chars[self.pos] == 'r' {
                        push_char(&mut val, 'r');
                        self.pos += 1;
                    }
                    if self.pos < n && self.chars[self.pos] == 'n' {
                        push_char(&mut val, 'n');
                        self.pos += 1;
                    }
                    proof {
                        let e = scan_esc(s, i2).0;
                        let jj = scan_esc(s, i2).1;
                        assert(val@ =~= v0 + seq![ch, '\\'] + e);
                        assert(self.cursor() == jj);
                        assert(scan_str(s, p0).0 =~= seq![ch, '\\'] + e + scan_str(s, jj).0);
                        assert(scan_str(s, p0).1 == scan_str(s, jj).1);
                        assert(scan_str(s, sstart).0 =~= val@ + scan_str(s, self.cursor()).0);
                    }
                } else {
                    proof {
                        assert(scan_str(s, p0).0 =~= seq![ch] + scan_str(s, p0 + 1).0);
                        assert(val@ =~= v0 + seq![ch]);
                        assert(scan_str(s, sstart).0 =~= val@ + scan_str(s, self.cursor()).0);
                    }
                }
            }
            if self.pos < n {
                self.pos += 1;
            }
            Tokens::String(val)
        } else if c == ',' {
            self.pos += 1;
            Tokens::Comma
        } else if c == '#' {
            while self.pos < n && self.chars[self.pos] != '\n'
                invariant
                    s == self.input(),
                    n == s.len(),
                    self.wf(),
                    scan_run(s, j, comment_pred()) == scan_run(s, self.cursor(), comment_pred()),
                decreases n - self.pos,
            {
                self.pos += 1;
            }
            proof {
                assert(scan_run(s, self.cursor(), comment_pred()) == self.cursor());
            }
            Tokens::Comment
        } else if c.is_alphabetic() {
            let mut word = String::new();
            while self.pos < n && is_ident_char_exec(self.chars[self.pos])
                invariant
                    s == self.input(),
                    n == s.len(),
                    self.wf(),
                    0 <= j <= self.cursor(),
                    word@ == s.subrange(j, self.cursor()),
                    scan_run(s, j, ident_pred()) == scan_run(s, self.cursor(), ident_pred()),
                decreases n - self.pos,
            {
                let ghost p = self.cursor();
                push_char(&mut word, self.chars[self.pos]);
                self.pos += 1;
                proof {
                    crate::seq_lemmas::lemma_subrange_push_at(s, j, p);
                }
            }
            proof {
                assert(scan_run(s, self.cursor(), ident_pred()) == self.cursor());
            }
            Tokens::Ident(word)
        } else if c.is_numeric() {
            let mut number = String::new();
            while self.pos < n && self.chars[self.pos].is_numeric()
                invariant
                    s == self.input(),
                    n == s.len(),
                    self.wf(),
                    0 <= j <= self.cursor(),
                    number@ == s.subrange(j, self.cursor()),
                    scan_run(s, j, num_pred()) == scan_run(s, self.cursor(), num_pred()),
                decreases n - self.pos,
            {
                let ghost p = self.cursor();
                push_char(&mut number, self.chars[self.pos]);
                self.pos += 1;
                proof {
                    crate::seq_lemmas::lemma_subrange_push_at(s, j, p);
                }
            }
            proof {
                assert(scan_run(s, self.cursor(), num_pred()) == self.cursor());
            }
            Tokens::Number(number)
        } else {
            Tokens::Illegal(c)
        }
    }
}

} // verus!
