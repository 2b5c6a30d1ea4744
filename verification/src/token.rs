//! The character-level lexer: source text in, a stream of tokens out.
//! `(` and `)` are single-character tokens; a `;` starts a comment running
//! to the next newline, and comments never reach the parser; a double-quoted
//! run is one token including its quotes, with `\"` and `\\` unescaped; any
//! other maximal run of characters free of blanks and parentheses is one
//! token.

use vstd::prelude::*;

verus! {

/// One token: its text and the character offset at which it began.
#[derive(Debug)]
pub struct Token {
    /// The token's text.
    pub value: String,
    /// The character offset of the token's first character in the input.
    pub position: usize,
}

/// The model of a token: its text and offset.
pub struct TokenModel {
    /// The token's text.
    pub text: Seq<char>,
    /// The character offset of the token's first character in the input.
    pub pos: int,
}

impl View for Token {
    type V = TokenModel;

    open spec fn view(&self) -> TokenModel {
        TokenModel { text: self.value@, pos: self.position as int }
    }
}

impl Clone for Token {
    fn clone(&self) -> (r: Self)
        ensures
            r@ == self@,
    {
        Token { value: self.value.clone(), position: self.position }
    }
}

/// The models of a sequence of tokens.
pub open spec fn toks_view(s: Seq<Token>) -> Seq<TokenModel> {
    Seq::new(s.len(), |i: int| s[i]@)
}

/// A blank character: one of the usual ASCII separators.
pub open spec fn is_blank(c: char) -> bool {
    c == ' ' || c == '\t' || c == '\n' || c == '\r' || c == '\u{b}' || c == '\u{c}'
}

/// A parenthesis.
pub open spec fn is_paren(c: char) -> bool {
    c == '(' || c == ')'
}

/// The position of the next token's first character at or after `i`: blanks
/// are stepped over, and a `;` starts a comment that runs to the next
/// newline.
pub open spec fn skip_blank(s: Seq<char>, i: int) -> int
    decreases s.len() - i, 0int,
{
    if i >= s.len() {
        s.len() as int
    } else if is_blank(s[i]) {
        skip_blank(s, i + 1)
    } else if s[i] == ';' {
        skip_comment(s, i + 1)
    } else {
        i
    }
}

/// The position of the next token's first character, scanning inside a
/// comment: everything up to the next newline belongs to the comment.
pub open spec fn skip_comment(s: Seq<char>, i: int) -> int
    decreases s.len() - i, 1int,
{
    if i >= s.len() {
        s.len() as int
    } else if s[i] == '\n' {
        skip_blank(s, i)
    } else {
        skip_comment(s, i + 1)
    }
}

/// The end of a plain token run that began at or before `i`: the first
/// blank or parenthesis at or after `i`, or the end of the input.
pub open spec fn run_end(s: Seq<char>, i: int) -> int
    decreases s.len() - i,
{
    if i >= s.len() {
        s.len() as int
    } else if is_blank(s[i]) || is_paren(s[i]) {
        i
    } else {
        run_end(s, i + 1)
    }
}

/// The position just past a string token whose opening quote stood at
/// `i - 1`: a backslash escapes the following character, and the input may
/// end before a closing quote.
pub open spec fn string_end(s: Seq<char>, i: int) -> int
    decreases s.len() - i,
{
    if i >= s.len() {
        s.len() as int
    } else if s[i] == '\\' {
        if i + 1 >= s.len() {
            s.len() as int
        } else {
            string_end(s, i + 2)
        }
    } else if s[i] == '"' {
        i + 1
    } else {
        string_end(s, i + 1)
    }
}

/// The text a string token carries from position `i` on, with `\"` and
/// `\\` unescaped, any other escape kept as it stands, and the closing
/// quote included when there is one.
pub open spec fn string_value(s: Seq<char>, i: int) -> Seq<char>
    decreases s.len() - i,
{
    if i >= s.len() {
        Seq::empty()
    } else if s[i] == '\\' {
        if i + 1 >= s.len() {
            seq!['\\']
        } else if s[i + 1] == '"' {
            seq!['"'] + string_value(s, i + 2)
        } else if s[i + 1] == '\\' {
            seq!['\\'] + string_value(s, i + 2)
        } else {
            seq!['\\', s[i + 1]] + string_value(s, i + 2)
        }
    } else if s[i] == '"' {
        seq!['"']
    } else {
        seq![s[i]] + string_value(s, i + 1)
    }
}

/// The text of the token that begins at `i`, a position holding neither a
/// blank nor a comment.
pub open spec fn token_text_at(s: Seq<char>, i: int) -> Seq<char> {
    if is_paren(s[i]) {
        seq![s[i]]
    } else if s[i] == '"' {
        seq!['"'] + string_value(s, i + 1)
    } else {
        s.subrange(i, run_end(s, i))
    }
}

/// The position just past the token that begins at `i`.
pub open spec fn token_end_at(s: Seq<char>, i: int) -> int {
    if is_paren(s[i]) {
        i + 1
    } else if s[i] == '"' {
        string_end(s, i + 1)
    } else {
        run_end(s, i)
    }
}

/// Skipping blanks and comments never moves backwards, nor past the end.
pub proof fn lemma_skip_blank_bounds(s: Seq<char>, i: int)
    requires
        i <= s.len(),
    ensures
        i <= skip_blank(s, i) <= s.len(),
        i <= skip_comment(s, i) <= s.len(),
    decreases s.len() - i,
{
    if i < s.len() {
        lemma_skip_blank_bounds(s, i + 1);
    }
}

/// Skipping blanks lands on the end of the input, or on a character that
/// neither is a blank nor opens a comment.
pub proof fn lemma_skip_blank_lands(s: Seq<char>, i: int)
    ensures
        ({
            let j = skip_blank(s, i);
            j < s.len() ==> !is_blank(s[j]) && s[j] != ';'
        }),
    decreases s.len() - i, 0int,
{
    if i < s.len() {
        if is_blank(s[i]) {
            lemma_skip_blank_lands(s, i + 1);
        } else if s[i] == ';' {
            lemma_skip_comment_lands(s, i + 1);
        }
    }
}

/// Scanning past a comment lands on the end of the input, or on a
/// character that neither is a blank nor opens a comment.
pub proof fn lemma_skip_comment_lands(s: Seq<char>, i: int)
    ensures
        ({
            let j = skip_comment(s, i);
            j < s.len() ==> !is_blank(s[j]) && s[j] != ';'
        }),
    decreases s.len() - i, 1int,
{
    if i < s.len() {
        if s[i] == '\n' {
            lemma_skip_blank_lands(s, i);
        } else {
            lemma_skip_comment_lands(s, i + 1);
        }
    }
}

/// A plain token run ends at or after where it began, inside the input.
pub proof fn lemma_run_end_bounds(s: Seq<char>, i: int)
    requires
        i <= s.len(),
    ensures
        i <= run_end(s, i) <= s.len(),
    decreases s.len() - i,
{
    if i < s.len() && !(is_blank(s[i]) || is_paren(s[i])) {
        lemma_run_end_bounds(s, i + 1);
    }
}

/// A string token ends at or after the position after its opening quote,
/// inside the input.
pub proof fn lemma_string_end_bounds(s: Seq<char>, i: int)
    requires
        i <= s.len(),
    ensures
        i <= string_end(s, i) <= s.len(),
    decreases s.len() - i,
{
    if i < s.len() {
        if s[i] == '\\' {
            if i + 2 <= s.len() {
                lemma_string_end_bounds(s, i + 2);
            }
        } else if s[i] != '"' {
            lemma_string_end_bounds(s, i + 1);
        }
    }
}

/// The token stream of the input from position `i` on: comments are
/// filtered out here, before any token reaches the parser.
pub open spec fn tokens_from(s: Seq<char>, i: int) -> Seq<TokenModel>
    decreases s.len() - i,
        via tokens_from_decreases
{
    let j = skip_blank(s, i);
    if j >= s.len() {
        Seq::empty()
    } else {
        seq![TokenModel { text: token_text_at(s, j), pos: j }] + tokens_from(s, token_end_at(s, j))
    }
}

#[via_fn]
proof fn tokens_from_decreases(s: Seq<char>, i: int) {
    let j = skip_blank(s, i);
    if j < s.len() {
        if i > s.len() {
            assert(j == s.len());
        } else {
            lemma_skip_blank_bounds(s, i);
            lemma_skip_blank_lands(s, i);
            if !is_paren(s[j]) {
                if s[j] == '"' {
                    lemma_string_end_bounds(s, j + 1);
                } else {
                    assert(run_end(s, j) == run_end(s, j + 1));
                    lemma_run_end_bounds(s, j + 1);
                }
            }
        }
    }
}

/// Whether the character is a blank.
fn blank_char(c: char) -> (r: bool)
    ensures
        r == is_blank(c),
{
    c == ' ' || c == '\t' || c == '\n' || c == '\r' || c == '\u{b}' || c == '\u{c}'
}

/// Appends one character to the text.
///
/// Relies on `String::push`: it appends exactly the given character.
#[verifier::external_body]
fn push_char(s: &mut String, c: char)
    ensures
        final(s)@ == old(s)@.push(c),
{
    s.push(c)
}

/// Whether two pieces of text hold the same characters.
pub fn str_eq(a: &str, b: &str) -> (r: bool)
    ensures
        r == (a@ == b@),
{
    let la = a.unicode_len();
    let lb = b.unicode_len();
    if la != lb {
        return false;
    }
    let mut i: usize = 0;
    while i < la
        invariant
            la == a@.len(),
            la == b@.len(),
            i <= la,
            forall|j: int| 0 <= j < i ==> a@[j] == b@[j],
        decreases la - i,
    {
        if a.get_char(i) != b.get_char(i) {
            return false;
        }
        i = i + 1;
    }
    proof {
        assert(a@ =~= b@);
    }
    true
}

/// The lexer's cursor over the input text.
pub struct TokenIterator {
    /// The input, one character per element.
    pub chars: Vec<char>,
    /// The position of the next character the lexer will look at.
    pub pos: usize,
}

impl TokenIterator {
    /// The next token, or `None` when only blanks and comments remain. The
    /// token stream this yields is exactly `tokens_from` of the input.
    pub fn next(&mut self) -> (r: Option<Token>)
        requires
            old(self).pos <= old(self).chars@.len(),
        ensures
            final(self).chars@ == old(self).chars@,
            final(self).pos <= old(self).chars@.len(),
            match r {
                None => tokens_from(old(self).chars@, old(self).pos as int) =~= Seq::<
                    TokenModel,
                >::empty(),
                Some(t) => {
                    &&& final(self).pos > old(self).pos
                    &&& tokens_from(old(self).chars@, old(self).pos as int) =~= seq![t@]
                        + tokens_from(old(self).chars@, final(self).pos as int)
                },
            },
    {
        let ghost s = self.chars@;
        let ghost start0 = self.pos as int;
        let n = self.chars.len();
        loop
            invariant
                self.chars@ == s,
                n == s.len(),
                self.pos <= n,
                skip_blank(s, start0) == skip_blank(s, self.pos as int),
            ensures
                self.chars@ == s,
                self.pos <= n,
                skip_blank(s, start0) == self.pos as int,
                self.pos < n ==> !is_blank(s[self.pos as int]) && s[self.pos as int] != ';'
                    && s[self.pos as int] == self.chars@[self.pos as int],
            decreases n - self.pos,
        {
            if self.pos >= n {
                break ;
            }
            let c = self.chars[self.pos];
            if blank_char(c) {
                self.pos = self.pos + 1;
            } else if c == ';' {
                self.pos = self.pos + 1;
                let ghost entered = self.pos as int;
                while self.pos < n && self.chars[self.pos] != '\n'
                    invariant
                        self.chars@ == s,
                        n == s.len(),
                        entered <= self.pos <= n,
                        skip_blank(s, start0) == skip_comment(s, self.pos as int),
                    decreases n - self.pos,
                {
                    self.pos = self.pos + 1;
                }
            } else {
                proof {
                    assert(skip_blank(s, self.pos as int) == self.pos as int);
                }
                break ;
            }
        }
        proof {
            lemma_skip_blank_bounds(s, start0);
        }
        if self.pos >= n {
            return None;
        }
        let start = self.pos;
        let c = self.chars[start];
        let mut value = String::new();
        if c == '(' || c == ')' {
            push_char(&mut value, c);
            self.pos = self.pos + 1;
            proof {
                assert(value@ =~= seq![c]);
                assert(tokens_from(s, start0) =~= seq![
                    TokenModel { text: token_text_at(s, start as int), pos: start as int },
                ] + tokens_from(s, token_end_at(s, start as int)));
            }
            return Some(Token { value, position: start });
        }
        if c == '"' {
            push_char(&mut value, '"');
            self.pos = self.pos + 1;
            proof {
                assert(value@ =~= seq!['"']);
                assert(token_text_at(s, start as int) =~= value@ + string_value(
                    s,
                    start as int + 1,
                ));
            }
            loop
                invariant_except_break
                    token_text_at(s, start as int) =~= value@ + string_value(s, self.pos as int),
                    token_end_at(s, start as int) == string_end(s, self.pos as int),
                invariant
                    self.chars@ == s,
                    n == s.len(),
                    start as int + 1 <= self.pos <= n,
                ensures
                    self.chars@ == s,
                    (start as int) < self.pos <= n,
                    value@ =~= token_text_at(s, start as int),
                    self.pos as int == token_end_at(s, start as int),
                decreases n - self.pos,
            {
                if self.pos >= n {
                    proof {
                        assert(string_value(s, self.pos as int) =~= Seq::<char>::empty());
                        assert(value@ + Seq::<char>::empty() =~= value@);
                    }
                    break ;
                }
                let ghost p = self.pos as int;
                let ghost value_pre = value@;
                let d = self.chars[self.pos];
                if d == '\\' {
                    if self.pos + 1 >= n {
                        push_char(&mut value, '\\');
                        self.pos = self.pos + 1;
                        proof {
                            assert(string_value(s, p) =~= seq!['\\']);
                            assert(value_pre + seq!['\\'] =~= value@);
                        }
                        break ;
                    }
                    let e = self.chars[self.pos + 1];
                    if e == '"' {
                        push_char(&mut value, '"');
                        proof {
                            assert(string_value(s, p) =~= seq!['"'] + string_value(s, p + 2));
                            assert(value_pre + (seq!['"'] + string_value(s, p + 2)) =~= value@
                                + string_value(s, p + 2));
                        }
                    } else if e == '\\' {
                        push_char(&mut value, '\\');
                        proof {
                            assert(string_value(s, p) =~= seq!['\\'] + string_value(s, p + 2));
                            assert(value_pre + (seq!['\\'] + string_value(s, p + 2)) =~= value@
                                + string_value(s, p + 2));
                        }
                    } else {
                        push_char(&mut value, '\\');
                        push_char(&mut value, e);
                        proof {
                            assert(string_value(s, p) =~= seq!['\\', s[p + 1]] + string_value(
                                s,
                                p + 2,
                            ));
                            assert(value_pre + (seq!['\\', s[p + 1]] + string_value(s, p + 2))
                                =~= value@ + string_value(s, p + 2));
                        }
                    }
                    self.pos = self.pos + 2;
                } else if d == '"' {
                    push_char(&mut value, '"');
                    self.pos = self.pos + 1;
                    proof {
                        assert(string_value(s, p) =~= seq!['"']);
                        assert(value_pre + seq!['"'] =~= value@);
                    }
                    break ;
                } else {
                    push_char(&mut value, d);
                    self.pos = self.pos + 1;
                    proof {
                        assert(string_value(s, p) =~= seq![s[p]] + string_value(s, p + 1));
                        assert(value_pre + (seq![s[p]] + string_value(s, p + 1)) =~= value@
                            + string_value(s, p + 1));
                    }
                }
            }
            proof {
                assert(tokens_from(s, start0) =~= seq![
                    TokenModel { text: token_text_at(s, start as int), pos: start as int },
                ] + tokens_from(s, token_end_at(s, start as int)));
            }
            return Some(Token { value, position: start });
        }
        // A plain run of characters.
        proof {
            assert(value@ =~= s.subrange(start as int, start as int));
        }
        loop
            invariant_except_break
                value@ =~= s.subrange(start as int, self.pos as int),
                run_end(s, start as int) == run_end(s, self.pos as int),
            invariant
                self.chars@ == s,
                n == s.len(),
                start as int <= self.pos <= n,
            ensures
                self.chars@ == s,
                start as int <= self.pos <= n,
                value@ =~= s.subrange(start as int, self.pos as int),
                self.pos as int == run_end(s, start as int),
            decreases n - self.pos,
        {
            if self.pos >= n {
                break ;
            }
            let d = self.chars[self.pos];
            if blank_char(d) || d == '(' || d == ')' {
                proof {
                    assert(run_end(s, self.pos as int) == self.pos as int);
                }
                break ;
            }
            push_char(&mut value, d);
            self.pos = self.pos + 1;
            proof {
                assert(value@ =~= s.subrange(start as int, self.pos as int));
            }
        }
        proof {
            assert(value@ =~= token_text_at(s, start as int));
            assert(run_end(s, start as int) == run_end(s, start as int + 1));
            lemma_run_end_bounds(s, start as int + 1);
            assert(self.pos > start);
            assert(tokens_from(s, start0) =~= seq![
                TokenModel { text: token_text_at(s, start as int), pos: start as int },
            ] + tokens_from(s, token_end_at(s, start as int)));
        }
        Some(Token { value, position: start })
    }

    /// All remaining tokens, in order.
    pub fn collect_tokens(&mut self) -> (r: Vec<Token>)
        requires
            old(self).pos <= old(self).chars@.len(),
        ensures
            final(self).chars@ == old(self).chars@,
            toks_view(r@) =~= tokens_from(old(self).chars@, old(self).pos as int),
    {
        let ghost s = self.chars@;
        let ghost start0 = old(self).pos as int;
        let mut out: Vec<Token> = Vec::new();
        loop
            invariant_except_break
                toks_view(out@) + tokens_from(s, self.pos as int) =~= tokens_from(s, start0),
            invariant
                self.chars@ == s,
                self.pos <= s.len(),
            ensures
                self.chars@ == s,
                toks_view(out@) =~= tokens_from(s, start0),
            decreases s.len() - self.pos + 1,
        {
            match self.next() {
                Some(t) => {
                    let ghost out_pre = out@;
                    let ghost tm = t@;
                    out.push(t);
                    proof {
                        assert(toks_view(out@) =~= toks_view(out_pre).push(tm));
                        assert(toks_view(out_pre).push(tm) + tokens_from(s, self.pos as int)
                            =~= toks_view(out_pre) + (seq![tm] + tokens_from(
                            s,
                            self.pos as int,
                        )));
                    }
                },
                None => {
                    proof {
                        assert(toks_view(out@) + Seq::<TokenModel>::empty() =~= toks_view(out@));
                    }
                    break ;
                },
            }
        }
        out
    }
}

/// Builds the lexer's cursor over the input text.
pub fn tokenize(input: &str) -> (r: TokenIterator)
    ensures
        r.chars@ == input@,
        r.pos == 0,
{
    let n = input.unicode_len();
    let mut chars: Vec<char> = Vec::new();
    let mut i: usize = 0;
    while i < n
        invariant
            n == input@.len(),
            i <= n,
            chars@.len() == i,
            forall|j: int| 0 <= j < i ==> chars@[j] == input@[j],
        decreases n - i,
    {
        chars.push(input.get_char(i));
        i = i + 1;
    }
    proof {
        assert(chars@ =~= input@);
    }
    TokenIterator { chars, pos: 0 }
}

} // verus!
