use vstd::prelude::*;

verus! {

/// The lexical categories of the language.
///
/// `Identifier`, `String` and `Number` carry a literal: the token's lexeme is
/// the name, the quoted text, or the digits. Two tokens are of one kind exactly
/// when their `TokenType`s are equal, whatever literal they carry.
#[derive(Clone, Copy, Debug, PartialEq, Eq, Structural)]
pub enum TokenType {
    LeftParen,
    RightParen,
    LeftBrace,
    RightBrace,
    Comma,
    Dot,
    Minus,
    Plus,
    Semicolon,
    Slash,
    Star,
    Bang,
    BangEqual,
    Equal,
    EqualEqual,
    Greater,
    GreaterEqual,
    Less,
    LessEqual,
    Identifier,
    String,
    Number,
    And,
    Class,
    Else,
    False,
    Fn,
    For,
    If,
    Nil,
    Or,
    Print,
    Return,
    Super,
    This,
    True,
    Var,
    While,
    EOF,
    Error,
}

/// The keyword spelled by `word`, if it spells one.
pub open spec fn keyword_of(word: Seq<char>) -> Option<TokenType> {
    if word == "and"@ {
        Some(TokenType::And)
    } else if word == "class"@ {
        Some(TokenType::Class)
    } else if word == "else"@ {
        Some(TokenType::Else)
    } else if word == "false"@ {
        Some(TokenType::False)
    } else if word == "fn"@ {
        Some(TokenType::Fn)
    } else if word == "for"@ {
        Some(TokenType::For)
    } else if word == "if"@ {
        Some(TokenType::If)
    } else if word == "nil"@ {
        Some(TokenType::Nil)
    } else if word == "or"@ {
        Some(TokenType::Or)
    } else if word == "print"@ {
        Some(TokenType::Print)
    } else if word == "return"@ {
        Some(TokenType::Return)
    } else if word == "super"@ {
        Some(TokenType::Super)
    } else if word == "this"@ {
        Some(TokenType::This)
    } else if word == "true"@ {
        Some(TokenType::True)
    } else if word == "var"@ {
        Some(TokenType::Var)
    } else if word == "while"@ {
        Some(TokenType::While)
    } else {
        None
    }
}

/// The kind of a word: its keyword, or else an identifier.
pub open spec fn word_type(word: Seq<char>) -> TokenType {
    match keyword_of(word) {
        Some(t) => t,
        None => TokenType::Identifier,
    }
}

/// A token as a value: its kind, its text and the line it ends on.
pub struct TokenView {
    pub token_type: TokenType,
    pub lexeme: Seq<char>,
    pub line: nat,
}

#[derive(Debug, PartialEq)]
pub struct Token {
    pub token_type: TokenType,
    pub lexeme: String,
    pub line: usize,
}

impl View for Token {
    type V = TokenView;

    open spec fn view(&self) -> TokenView {
        TokenView { token_type: self.token_type, lexeme: self.lexeme@, line: self.line as nat }
    }
}

impl Token {
    pub fn new(token_type: TokenType, lexeme: String, line: usize) -> (r: Token)
        ensures
            r.token_type == token_type,
            r.lexeme == lexeme,
            r.line == line,
    {
        Token { token_type, lexeme, line }
    }

    pub fn get_lexeme(&self) -> (r: String)
        ensures
            r == self.lexeme,
    {
        self.lexeme.clone()
    }

    pub fn copy(&self) -> (r: Token)
        ensures
            r == *self,
    {
        Token { token_type: self.token_type, lexeme: self.lexeme.clone(), line: self.line }
    }
}

/// Compares the characters of `src` from `start` to `end` with `word`.
pub fn spells(src: &Vec<char>, start: usize, end: usize, word: &str) -> (r: bool)
    requires
        start <= end <= src@.len(),
    ensures
        r == (src@.subrange(start as int, end as int) == word@),
{
    let n = word.unicode_len();
    if end - start != n {
        return false;
    }
    let mut i: usize = 0;
    while i < n
        invariant
            n == word@.len(),
            end - start == n,
            start <= end <= src@.len(),
            i <= n,
            forall|j: int| 0 <= j < i ==> src@[start + j] == word@[j],
        decreases n - i,
    {
        if src[start + i] != word.get_char(i) {
            assert(src@.subrange(start as int, end as int)[i as int] != word@[i as int]);
            return false;
        }
        i += 1;
    }
    assert(src@.subrange(start as int, end as int) =~= word@);
    true
}

/// The keyword or identifier type of the word `src[start..end]`.
pub fn word_type_at(src: &Vec<char>, start: usize, end: usize) -> (r: TokenType)
    requires
        start <= end <= src@.len(),
    ensures
        r == word_type(src@.subrange(start as int, end as int)),
{
    if spells(src, start, end, "and") {
        TokenType::And
    } else if spells(src, start, end, "class") {
        TokenType::Class
    } else if spells(src, start, end, "else") {
        TokenType::Else
    } else if spells(src, start, end, "false") {
        TokenType::False
    } else if spells(src, start, end, "fn") {
        TokenType::Fn
    } else if spells(src, start, end, "for") {
        TokenType::For
    } else if spells(src, start, end, "if") {
        TokenType::If
    } else if spells(src, start, end, "nil") {
        TokenType::Nil
    } else if spells(src, start, end, "or") {
        TokenType::Or
    } else if spells(src, start, end, "print") {
        TokenType::Print
    } else if spells(src, start, end, "return") {
        TokenType::Return
    } else if spells(src, start, end, "super") {
        TokenType::Super
    } else if spells(src, start, end, "this") {
        TokenType::This
    } else if spells(src, start, end, "true") {
        TokenType::True
    } else if spells(src, start, end, "var") {
        TokenType::Var
    } else if spells(src, start, end, "while") {
        TokenType::While
    } else {
        TokenType::Identifier
    }
}

/// A sequence of tokens, as the scanner hands it out.
pub struct Tokens(pub Vec<Token>);

impl View for Tokens {
    type V = Seq<TokenView>;

    open spec fn view(&self) -> Seq<TokenView> {
        self.0@.map_values(|t: Token| t@)
    }
}

impl Tokens {
    pub fn new() -> (r: Tokens)
        ensures
            r@.len() == 0,
    {
        Tokens(Vec::new())
    }

    pub fn push(&mut self, token: Token)
        ensures
            final(self)@ == old(self)@.push(token@),
    {
        self.0.push(token);
        assert(self@ =~= old(self)@.push(token@));
    }

    pub fn len(&self) -> (r: usize)
        ensures
            r == self@.len(),
    {
        self.0.len()
    }

    pub fn get(&self, index: usize) -> (r: &Token)
        requires
            index < self@.len(),
        ensures
            r@ == self@[index as int],
    {
        &self.0[index]
    }

    pub fn clone(&self) -> (r: Tokens)
        ensures
            r@ == self@,
    {
        let mut out: Vec<Token> = Vec::new();
        let mut i: usize = 0;
        while i < self.0.len()
            invariant
                i <= self.0@.len(),
                out@.len() == i,
                forall|j: int| 0 <= j < i ==> out@[j] == self.0@[j],
            decreases self.0@.len() - i,
        {
            out.push(self.0[i].copy());
            i += 1;
        }
        let r = Tokens(out);
        assert(r@ =~= self@);
        r
    }
}

/// Builds a token field by field; fields not set keep the builder's defaults.
pub struct TokenBuilder {
    token_type: TokenType,
    lexeme: String,
    line: usize,
}

impl TokenBuilder {
    pub closed spec fn spec_token_type(&self) -> TokenType {
        self.token_type
    }

    pub closed spec fn spec_lexeme(&self) -> String {
        self.lexeme
    }

    pub closed spec fn spec_line(&self) -> usize {
        self.line
    }

    pub fn new() -> (r: TokenBuilder)
        ensures
            r.spec_token_type() == TokenType::Error,
            r.spec_lexeme()@.len() == 0,
            r.spec_line() == 0,
    {
        TokenBuilder { token_type: TokenType::Error, lexeme: String::new(), line: 0 }
    }

    pub fn build(self) -> (r: Token)
        ensures
            r.token_type == self.spec_token_type(),
            r.lexeme == self.spec_lexeme(),
            r.line == self.spec_line(),
    {
        Token { token_type: self.token_type, lexeme: self.lexeme, line: self.line }
    }

    pub fn token_type(self, token_type: TokenType) -> (r: TokenBuilder)
        ensures
            r.spec_token_type() == token_type,
            r.spec_lexeme() == self.spec_lexeme(),
            r.spec_line() == self.spec_line(),
    {
        TokenBuilder { token_type, lexeme: self.lexeme, line: self.line }
    }

    pub fn lexeme(self, lexeme: String) -> (r: TokenBuilder)
        ensures
            r.spec_token_type() == self.spec_token_type(),
            r.spec_lexeme() == lexeme,
            r.spec_line() == self.spec_line(),
    {
        TokenBuilder { token_type: self.token_type, lexeme, line: self.line }
    }

    pub fn line(self, line: usize) -> (r: TokenBuilder)
        ensures
            r.spec_token_type() == self.spec_token_type(),
            r.spec_lexeme() == self.spec_lexeme(),
            r.spec_line() == line,
    {
        TokenBuilder { token_type: self.token_type, lexeme: self.lexeme, line }
    }
}

} // verus!
