//! The lexer: turns one raw input line into the ordered sequence of tokens of
//! the command language, or reports the first offending word, number or
//! character.
use crate::text::{chars_to_string, str_chars};
use vstd::prelude::*;

verus! {

/// One token of the command language.
pub enum Token {
    Open,
    Close,
    Create,
    Delete,
    Complete,
    Save,
    Help,
    Exit,
    Task,
    List,
    /// Free text taken from a quoted run: a path or a task title.
    Identifier(String),
    /// An unsigned digit run, read as a signed machine integer.
    Number(isize),
}

/// Mathematical image of a token.
pub enum TokenModel {
    Open,
    Close,
    Create,
    Delete,
    Complete,
    Save,
    Help,
    Exit,
    Task,
    List,
    Identifier(Seq<char>),
    Number(isize),
}

impl View for Token {
    type V = TokenModel;

    open spec fn view(&self) -> TokenModel {
        match self {
            Token::Open => TokenModel::Open,
            Token::Close => TokenModel::Close,
            Token::Create => TokenModel::Create,
            Token::Delete => TokenModel::Delete,
            Token::Complete => TokenModel::Complete,
            Token::Save => TokenModel::Save,
            Token::Help => TokenModel::Help,
            Token::Exit => TokenModel::Exit,
            Token::Task => TokenModel::Task,
            Token::List => TokenModel::List,
            Token::Identifier(s) => TokenModel::Identifier(s@),
            Token::Number(n) => TokenModel::Number(*n),
        }
    }
}

impl DeepView for Token {
    type V = TokenModel;

    open spec fn deep_view(&self) -> TokenModel {
        self@
    }
}

impl Clone for Token {
    fn clone(&self) -> (r: Token)
        ensures
            r@ == self@,
    {
        match self {
            Token::Open => Token::Open,
            Token::Close => Token::Close,
            Token::Create => Token::Create,
            Token::Delete => Token::Delete,
            Token::Complete => Token::Complete,
            Token::Save => Token::Save,
            Token::Help => Token::Help,
            Token::Exit => Token::Exit,
            Token::Task => Token::Task,
            Token::List => Token::List,
            Token::Identifier(s) => Token::Identifier(s.clone()),
            Token::Number(n) => Token::Number(*n),
        }
    }
}

/// What can be wrong with a line at the level of single tokens.
pub enum LexError {
    /// A word that is no keyword, or a single character that starts no token.
    InvalidToken(String),
    /// A digit run that does not fit the machine integer.
    InvalidNumber(String),
}

/// Mathematical image of a lexing error.
pub enum LexErrorModel {
    InvalidToken(Seq<char>),
    InvalidNumber(Seq<char>),
}

impl View for LexError {
    type V = LexErrorModel;

    open spec fn view(&self) -> LexErrorModel {
        match self {
            LexError::InvalidToken(s) => LexErrorModel::InvalidToken(s@),
            LexError::InvalidNumber(s) => LexErrorModel::InvalidNumber(s@),
        }
    }
}

/// The human-readable report for a lexing error: the offence named, with the
/// offending text.
pub open spec fn lex_error_message(e: LexErrorModel) -> Seq<char> {
    match e {
        LexErrorModel::InvalidToken(w) => "Invalid token: "@ + w,
        LexErrorModel::InvalidNumber(w) => "Invalid number: "@ + w,
    }
}

impl LexError {
    /// Renders the error as its report line: exactly `lex_error_message`.
    pub fn message(&self) -> (s: String)
        ensures
            s@ == lex_error_message(self@),
    {
        match self {
            LexError::InvalidToken(w) => {
                let mut s = String::from_str("Invalid token: ");
                s.append(w.as_str());
                s
            },
            LexError::InvalidNumber(w) => {
                let mut s = String::from_str("Invalid number: ");
                s.append(w.as_str());
                s
            },
        }
    }
}

/// Whitespace, skipped between tokens.
pub open spec fn is_space(c: char) -> bool {
    c == ' ' || c == '\t' || c == '\n' || c == '\r'
}

/// What `char::is_alphabetic` returns: whether the character has the Unicode
/// Alphabetic property, a function of the character alone.
pub uninterp spec fn is_alphabetic_char(c: char) -> bool;

/// What `char::is_numeric` returns: whether the character has a Unicode
/// numeric property, a function of the character alone.
pub uninterp spec fn is_numeric_char(c: char) -> bool;

/// Relies on char::is_alphabetic: the Unicode Alphabetic property.
pub assume_specification[ char::is_alphabetic ](c: char) -> (r: bool)
    ensures
        r == is_alphabetic_char(c),
;

/// Relies on char::is_numeric: the Unicode numeric properties.
pub assume_specification[ char::is_numeric ](c: char) -> (r: bool)
    ensures
        r == is_numeric_char(c),
;

/// Relies on char::is_alphanumeric, documented as `is_alphabetic()` or
/// `is_numeric()`.
pub assume_specification[ char::is_alphanumeric ](c: char) -> (r: bool)
    ensures
        r == (is_alphabetic_char(c) || is_numeric_char(c)),
;

/// An ASCII decimal digit: the only digits a number token can hold.
pub open spec fn is_digit(c: char) -> bool {
    '0' <= c && c <= '9'
}

/// What a word, once started, greedily consumes: alphanumeric characters and
/// the underscore.
pub open spec fn is_word_char(c: char) -> bool {
    is_alphabetic_char(c) || is_numeric_char(c) || c == '_'
}

/// Either quote character both opens and closes a free-text run.
pub open spec fn is_quote(c: char) -> bool {
    c == '"' || c == '\''
}

/// The numeric value of a decimal digit character.
pub open spec fn digit_of(c: char) -> int {
    c as u32 - '0' as u32
}

/// First position at or after `i` that does not continue a word.
pub open spec fn word_end(s: Seq<char>, i: int) -> int
    decreases s.len() - i,
{
    if i < s.len() && is_word_char(s[i]) {
        word_end(s, i + 1)
    } else {
        i
    }
}

/// First position at or after `i` that does not continue a digit run.
pub open spec fn digit_end(s: Seq<char>, i: int) -> int
    decreases s.len() - i,
{
    if i < s.len() && is_digit(s[i]) {
        digit_end(s, i + 1)
    } else {
        i
    }
}

/// First position at or after `i` that does not continue a numeric run.
pub open spec fn numeric_end(s: Seq<char>, i: int) -> int
    decreases s.len() - i,
{
    if i < s.len() && is_numeric_char(s[i]) {
        numeric_end(s, i + 1)
    } else {
        i
    }
}

/// First position at or after `i` holding a quote character, or the end.
pub open spec fn text_end(s: Seq<char>, i: int) -> int
    decreases s.len() - i,
{
    if i < s.len() && !is_quote(s[i]) {
        text_end(s, i + 1)
    } else {
        i
    }
}

pub proof fn lemma_word_end(s: Seq<char>, i: int)
    requires
        i <= s.len(),
    ensures
        i <= word_end(s, i) <= s.len(),
        forall|j: int| i <= j < word_end(s, i) ==> is_word_char(s[j]),
        word_end(s, i) < s.len() ==> !is_word_char(s[word_end(s, i)]),
    decreases s.len() - i,
{
    if i < s.len() && is_word_char(s[i]) {
        lemma_word_end(s, i + 1);
    }
}

pub proof fn lemma_digit_end(s: Seq<char>, i: int)
    requires
        i <= s.len(),
    ensures
        i <= digit_end(s, i) <= s.len(),
        forall|j: int| i <= j < digit_end(s, i) ==> is_digit(s[j]),
        digit_end(s, i) < s.len() ==> !is_digit(s[digit_end(s, i)]),
    decreases s.len() - i,
{
    if i < s.len() && is_digit(s[i]) {
        lemma_digit_end(s, i + 1);
    }
}

pub proof fn lemma_numeric_end(s: Seq<char>, i: int)
    requires
        i <= s.len(),
    ensures
        i <= numeric_end(s, i) <= s.len(),
        forall|j: int| i <= j < numeric_end(s, i) ==> is_numeric_char(s[j]),
        numeric_end(s, i) < s.len() ==> !is_numeric_char(s[numeric_end(s, i)]),
    decreases s.len() - i,
{
    if i < s.len() && is_numeric_char(s[i]) {
        lemma_numeric_end(s, i + 1);
    }
}

pub proof fn lemma_text_end(s: Seq<char>, i: int)
    requires
        i <= s.len(),
    ensures
        i <= text_end(s, i) <= s.len(),
        forall|j: int| i <= j < text_end(s, i) ==> !is_quote(s[j]),
        text_end(s, i) < s.len() ==> is_quote(s[text_end(s, i)]),
    decreases s.len() - i,
{
    if i < s.len() && !is_quote(s[i]) {
        lemma_text_end(s, i + 1);
    }
}

/// What `str::to_lowercase` returns: the Unicode-lowercased text, a function
/// of the characters alone.
pub uninterp spec fn lowercase_of(s: Seq<char>) -> Seq<char>;

/// Relies on str::to_lowercase: the result depends on the characters alone.
#[verifier::external_body]
fn to_lowercase(s: &str) -> (r: String)
    ensures
        r@ == lowercase_of(s@),
{
    s.to_lowercase()
}

/// The fixed keyword set: which token a word stands for, if any. Matching is
/// case-insensitive: the lowercased word is held against each keyword.
pub open spec fn keyword_token(w: Seq<char>) -> Option<TokenModel> {
    let lw = lowercase_of(w);
    if lw == "create"@ {
        Some(TokenModel::Create)
    } else if lw == "open"@ {
        Some(TokenModel::Open)
    } else if lw == "close"@ {
        Some(TokenModel::Close)
    } else if lw == "complete"@ {
        Some(TokenModel::Complete)
    } else if lw == "help"@ {
        Some(TokenModel::Help)
    } else if lw == "exit"@ {
        Some(TokenModel::Exit)
    } else if lw == "task"@ {
        Some(TokenModel::Task)
    } else if lw == "list"@ {
        Some(TokenModel::List)
    } else if lw == "save"@ {
        Some(TokenModel::Save)
    } else if lw == "delete"@ {
        Some(TokenModel::Delete)
    } else {
        None
    }
}

/// Whether a numeric run holds nothing but ASCII decimal digits: only such a
/// run can be read as a machine integer.
pub open spec fn all_ascii_digits(w: Seq<char>) -> bool {
    forall|j: int| 0 <= j < w.len() ==> is_digit(#[trigger] w[j])
}

/// The value of a digit run read in base ten.
pub open spec fn digits_val(w: Seq<char>) -> int
    decreases w.len(),
{
    if w.len() == 0 {
        0
    } else {
        digits_val(w.drop_last()) * 10 + digit_of(w.last())
    }
}

/// Prefixes a token to a lexing result that is still pending.
pub open spec fn lex_cons(t: TokenModel, r: Result<Seq<TokenModel>, LexErrorModel>) -> Result<
    Seq<TokenModel>,
    LexErrorModel,
> {
    match r {
        Ok(ts) => Ok(seq![t] + ts),
        Err(e) => Err(e),
    }
}

/// The tokens of the input from position `i` on: whitespace is skipped; a
/// quote starts free text running to the next quote of either kind, or to the
/// end when none follows; an alphabetic character starts a word that must be
/// a keyword; a numeric character starts a run that must be ASCII digits
/// fitting the machine integer; any other character is invalid.
pub open spec fn lex_from(s: Seq<char>, i: int) -> Result<Seq<TokenModel>, LexErrorModel>
    decreases s.len() - i,
    via lex_from_decreases
{
    if i >= s.len() {
        Ok(Seq::empty())
    } else if is_space(s[i]) {
        lex_from(s, i + 1)
    } else if is_quote(s[i]) {
        let e = text_end(s, i + 1);
        let w = s.subrange(i + 1, e);
        let next = if e < s.len() {
            e + 1
        } else {
            e
        };
        lex_cons(TokenModel::Identifier(w), lex_from(s, next))
    } else if is_alphabetic_char(s[i]) {
        let w = s.subrange(i, word_end(s, i));
        match keyword_token(w) {
            Some(t) => lex_cons(t, lex_from(s, word_end(s, i))),
            None => Err(LexErrorModel::InvalidToken(w)),
        }
    } else if is_numeric_char(s[i]) {
        let w = s.subrange(i, numeric_end(s, i));
        if all_ascii_digits(w) && digits_val(w) <= isize::MAX as int {
            lex_cons(TokenModel::Number(digits_val(w) as isize), lex_from(s, numeric_end(s, i)))
        } else {
            Err(LexErrorModel::InvalidNumber(w))
        }
    } else {
        Err(LexErrorModel::InvalidToken(seq![s[i]]))
    }
}

#[via_fn]
proof fn lex_from_decreases(s: Seq<char>, i: int) {
    if i < s.len() {
        lemma_word_end(s, i + 1);
        lemma_numeric_end(s, i + 1);
        lemma_text_end(s, i + 1);
        assert(is_word_char(s[i]) ==> word_end(s, i) == word_end(s, i + 1));
        assert(is_numeric_char(s[i]) ==> numeric_end(s, i) == numeric_end(s, i + 1));
    }
}

/// The tokens of a whole input line.
pub open spec fn lex_spec(s: Seq<char>) -> Result<Seq<TokenModel>, LexErrorModel> {
    lex_from(s, 0)
}

/// Appends a pending lexing result to tokens already taken.
pub open spec fn lex_app(pre: Seq<TokenModel>, r: Result<Seq<TokenModel>, LexErrorModel>) -> Result<
    Seq<TokenModel>,
    LexErrorModel,
> {
    match r {
        Ok(ts) => Ok(pre + ts),
        Err(e) => Err(e),
    }
}

proof fn lemma_app_cons(
    pre: Seq<TokenModel>,
    t: TokenModel,
    r: Result<Seq<TokenModel>, LexErrorModel>,
)
    ensures
        lex_app(pre, lex_cons(t, r)) == lex_app(pre.push(t), r),
{
    match r {
        Ok(ts) => {
            assert(pre + (seq![t] + ts) =~= pre.push(t) + ts);
        },
        Err(_) => {},
    }
}

pub(crate) fn check_space(c: char) -> (r: bool)
    ensures
        r == is_space(c),
{
    c == ' ' || c == '\t' || c == '\n' || c == '\r'
}

fn check_digit(c: char) -> (r: bool)
    ensures
        r == is_digit(c),
{
    '0' <= c && c <= '9'
}

fn check_word_char(c: char) -> (r: bool)
    ensures
        r == is_word_char(c),
{
    c.is_alphanumeric() || c == '_'
}

fn check_quote(c: char) -> (r: bool)
    ensures
        r == is_quote(c),
{
    c == '"' || c == '\''
}

fn scan_word(s: &Vec<char>, start: usize) -> (e: usize)
    requires
        start <= s@.len(),
    ensures
        start <= e <= s@.len(),
        e == word_end(s@, start as int),
{
    let mut j: usize = start;
    while j < s.len() && check_word_char(s[j])
        invariant
            start <= j <= s@.len(),
            word_end(s@, start as int) == word_end(s@, j as int),
        decreases s@.len() - j,
    {
        j += 1;
    }
    j
}

pub(crate) fn scan_digits(s: &Vec<char>, start: usize) -> (e: usize)
    requires
        start <= s@.len(),
    ensures
        start <= e <= s@.len(),
        e == digit_end(s@, start as int),
{
    let mut j: usize = start;
    while j < s.len() && check_digit(s[j])
        invariant
            start <= j <= s@.len(),
            digit_end(s@, start as int) == digit_end(s@, j as int),
        decreases s@.len() - j,
    {
        j += 1;
    }
    j
}

fn scan_numeric(s: &Vec<char>, start: usize) -> (e: usize)
    requires
        start <= s@.len(),
    ensures
        start <= e <= s@.len(),
        e == numeric_end(s@, start as int),
{
    let mut j: usize = start;
    while j < s.len() && s[j].is_numeric()
        invariant
            start <= j <= s@.len(),
            numeric_end(s@, start as int) == numeric_end(s@, j as int),
        decreases s@.len() - j,
    {
        j += 1;
    }
    j
}

fn scan_text(s: &Vec<char>, start: usize) -> (e: usize)
    requires
        start <= s@.len(),
    ensures
        start <= e <= s@.len(),
        e == text_end(s@, start as int),
{
    let mut j: usize = start;
    while j < s.len() && !check_quote(s[j])
        invariant
            start <= j <= s@.len(),
            text_end(s@, start as int) == text_end(s@, j as int),
        decreases s@.len() - j,
    {
        j += 1;
    }
    j
}

pub(crate) fn copy_range(s: &Vec<char>, a: usize, b: usize) -> (v: Vec<char>)
    requires
        a <= b <= s@.len(),
    ensures
        v@ == s@.subrange(a as int, b as int),
{
    let mut v: Vec<char> = Vec::new();
    let mut j: usize = a;
    while j < b
        invariant
            a <= j <= b <= s@.len(),
            v@ == s@.subrange(a as int, j as int),
        decreases b - j,
    {
        v.push(s[j]);
        proof {
            assert(v@ =~= s@.subrange(a as int, j + 1 as int));
        }
        j += 1;
    }
    v
}

fn keyword_lookup(w: &Vec<char>) -> (r: Option<Token>)
    ensures
        (match r {
            Some(t) => keyword_token(w@) == Some(t@),
            None => keyword_token(w@) is None,
        }),
{
    let ws = chars_to_string(w);
    let lw = to_lowercase(ws.as_str());
    if lw == String::from_str("create") {
        Some(Token::Create)
    } else if lw == String::from_str("open") {
        Some(Token::Open)
    } else if lw == String::from_str("close") {
        Some(Token::Close)
    } else if lw == String::from_str("complete") {
        Some(Token::Complete)
    } else if lw == String::from_str("help") {
        Some(Token::Help)
    } else if lw == String::from_str("exit") {
        Some(Token::Exit)
    } else if lw == String::from_str("task") {
        Some(Token::Task)
    } else if lw == String::from_str("list") {
        Some(Token::List)
    } else if lw == String::from_str("save") {
        Some(Token::Save)
    } else if lw == String::from_str("delete") {
        Some(Token::Delete)
    } else {
        None
    }
}

fn check_all_digits(w: &Vec<char>) -> (r: bool)
    ensures
        r == all_ascii_digits(w@),
{
    let mut j: usize = 0;
    while j < w.len()
        invariant
            j <= w@.len(),
            forall|m: int| 0 <= m < j ==> is_digit(#[trigger] w@[m]),
        decreases w@.len() - j,
    {
        if !check_digit(w[j]) {
            return false;
        }
        j += 1;
    }
    true
}

proof fn lemma_digits_val_nonneg(w: Seq<char>)
    requires
        forall|j: int| 0 <= j < w.len() ==> is_digit(w[j]),
    ensures
        digits_val(w) >= 0,
    decreases w.len(),
{
    if w.len() > 0 {
        lemma_digits_val_nonneg(w.drop_last());
    }
}

proof fn lemma_digits_val_grows(w: Seq<char>, n: int)
    requires
        forall|j: int| 0 <= j < w.len() ==> is_digit(w[j]),
        0 <= n <= w.len(),
        digits_val(w.subrange(0, n)) > isize::MAX as int,
    ensures
        digits_val(w) > isize::MAX as int,
    decreases w.len() - n,
{
    if n < w.len() {
        let p = w.subrange(0, n);
        let q = w.subrange(0, n + 1);
        lemma_digits_val_nonneg(p);
        assert(q.drop_last() =~= p);
        assert(digits_val(q) == digits_val(p) * 10 + digit_of(w[n]));
        lemma_digits_val_grows(w, n + 1);
    } else {
        assert(w.subrange(0, n) =~= w);
    }
}

pub(crate) fn parse_digits(w: &Vec<char>) -> (r: Option<isize>)
    requires
        forall|j: int| 0 <= j < w@.len() ==> is_digit(w@[j]),
    ensures
        (match r {
            Some(v) => v as int == digits_val(w@) && digits_val(w@) <= isize::MAX as int,
            None => digits_val(w@) > isize::MAX as int,
        }),
{
    let mut acc: isize = 0;
    let mut j: usize = 0;
    while j < w.len()
        invariant
            j <= w@.len(),
            forall|m: int| 0 <= m < w@.len() ==> is_digit(w@[m]),
            0 <= acc,
            acc as int == digits_val(w@.subrange(0, j as int)),
        decreases w@.len() - j,
    {
        let c = w[j];
        let d: isize = ((c as u32) - 48) as isize;
        proof {
            assert(is_digit(w@[j as int]));
            assert(0 <= d <= 9);
        }
        let step = match acc.checked_mul(10) {
            Some(x) => x.checked_add(d),
            None => None,
        };
        proof {
            let p = w@.subrange(0, j as int);
            let q = w@.subrange(0, j + 1 as int);
            assert(q.drop_last() =~= p);
            assert(digits_val(q) == digits_val(p) * 10 + d);
        }
        match step {
            Some(x) => {
                acc = x;
            },
            None => {
                proof {
                    lemma_digits_val_grows(w@, j + 1);
                }
                return None;
            },
        }
        j += 1;
    }
    proof {
        assert(w@.subrange(0, w@.len() as int) =~= w@);
    }
    Some(acc)
}

/// Lexes one input line into its tokens. The result is exactly what
/// `lex_spec` says of the line's characters: the tokens appear in the order
/// their source characters begin, and the first offence is reported.
pub fn lex(s: &str) -> (r: Result<Vec<Token>, LexError>)
    ensures
        (match r {
            Ok(toks) => lex_spec(s@) == Ok::<Seq<TokenModel>, LexErrorModel>(toks.deep_view()),
            Err(e) => lex_spec(s@) == Err::<Seq<TokenModel>, LexErrorModel>(e@),
        }),
{
    let chars = str_chars(s);
    lex_chars(&chars)
}

/// Free text in quotes survives lexing verbatim: a quoted run whose text
/// holds no quote character of either kind — spaces, punctuation and digits
/// included — lexes to exactly one Identifier holding the original text with
/// the quotes stripped.
pub proof fn lemma_quoted_text_round_trip(text: Seq<char>)
    requires
        forall|j: int| 0 <= j < text.len() ==> !is_quote(text[j]),
    ensures
        lex_spec(seq!['"'] + text + seq!['"']) == Ok::<Seq<TokenModel>, LexErrorModel>(
            seq![TokenModel::Identifier(text)],
        ),
{
    let s = seq!['"'] + text + seq!['"'];
    let n = s.len();
    assert(n == text.len() + 2);
    assert(s[0] == '"');
    assert(s[n - 1] == '"');
    assert(forall|j: int| 1 <= j < n - 1 ==> s[j] == text[j - 1]);
    lemma_text_end(s, 1);
    let e = text_end(s, 1);
    if e < n - 1 {
        assert(is_quote(s[e]));
        assert(!is_quote(text[e - 1]));
        assert(false);
    }
    if e == n {
        assert(!is_quote(s[n - 1]));
        assert(false);
    }
    assert(e == n - 1);
    assert(s.subrange(1, e) =~= text);
    assert(lex_from(s, n as int) == Ok::<Seq<TokenModel>, LexErrorModel>(Seq::empty()));
    assert(lex_from(s, 0) == lex_cons(TokenModel::Identifier(text), lex_from(s, n as int)));
    assert(seq![TokenModel::Identifier(text)] + Seq::<TokenModel>::empty() =~= seq![
        TokenModel::Identifier(text),
    ]);
}

fn lex_chars(s: &Vec<char>) -> (r: Result<Vec<Token>, LexError>)
    ensures
        (match r {
            Ok(toks) => lex_from(s@, 0) == Ok::<Seq<TokenModel>, LexErrorModel>(toks.deep_view()),
            Err(e) => lex_from(s@, 0) == Err::<Seq<TokenModel>, LexErrorModel>(e@),
        }),
{
    let mut toks: Vec<Token> = Vec::new();
    let mut i: usize = 0;
    while i < s.len()
        invariant
            i <= s@.len(),
            lex_from(s@, 0) == lex_app(toks.deep_view(), lex_from(s@, i as int)),
        decreases s@.len() - i,
    {
        let ghost pre = toks.deep_view();
        let c = s[i];
        if check_space(c) {
            i += 1;
        } else if check_quote(c) {
            let e = scan_text(s, i + 1);
            proof {
                lemma_text_end(s@, i + 1);
            }
            let w = copy_range(s, i + 1, e);
            let text = chars_to_string(&w);
            let t = Token::Identifier(text);
            proof {
                let next = if e < s@.len() {
                    e + 1 as int
                } else {
                    e as int
                };
                lemma_app_cons(pre, t@, lex_from(s@, next));
            }
            toks.push(t);
            proof {
                assert(toks.deep_view() =~= pre.push(t@));
            }
            i = if e < s.len() {
                e + 1
            } else {
                e
            };
        } else if c.is_alphabetic() {
            let e = scan_word(s, i);
            proof {
                lemma_word_end(s@, i as int);
            }
            let w = copy_range(s, i, e);
            match keyword_lookup(&w) {
                Some(t) => {
                    proof {
                        lemma_app_cons(pre, t@, lex_from(s@, e as int));
                    }
                    toks.push(t);
                    proof {
                        assert(toks.deep_view() =~= pre.push(t@));
                    }
                    i = e;
                },
                None => {
                    let word = chars_to_string(&w);
                    return Err(LexError::InvalidToken(word));
                },
            }
        } else if c.is_numeric() {
            let e = scan_numeric(s, i);
            proof {
                lemma_numeric_end(s@, i as int);
            }
            let w = copy_range(s, i, e);
            if !check_all_digits(&w) {
                let word = chars_to_string(&w);
                return Err(LexError::InvalidNumber(word));
            }
            match parse_digits(&w) {
                Some(v) => {
                    let t = Token::Number(v);
                    proof {
                        lemma_app_cons(pre, t@, lex_from(s@, e as int));
                    }
                    toks.push(t);
                    proof {
                        assert(toks.deep_view() =~= pre.push(t@));
                    }
                    i = e;
                },
                None => {
                    let word = chars_to_string(&w);
                    return Err(LexError::InvalidNumber(word));
                },
            }
        } else {
            let w = vec![c];
            proof {
                assert(w@ =~= seq![s@[i as int]]);
            }
            let word = chars_to_string(&w);
            return Err(LexError::InvalidToken(word));
        }
    }
    proof {
        assert(lex_from(s@, i as int) == Ok::<Seq<TokenModel>, LexErrorModel>(Seq::empty()));
        assert(toks.deep_view() + Seq::<TokenModel>::empty() =~= toks.deep_view());
    }
    Ok(toks)
}

} // verus!
