//! Infix and postfix tokens, and the whitespace tokenizer.

use vstd::prelude::*;
use vstd::string::StrSliceExecFns;

verus! {

/// Binary arithmetic operator.
#[derive(Clone, Copy, Debug, PartialEq, Eq, Structural)]
pub enum Operator {
    Add,
    Sub,
    Mul,
    Div,
}

/// Token of an infix expression.
#[derive(Clone, Debug, PartialEq)]
pub enum InfixToken {
    Operator(Operator),
    Operand(i64),
    Variable(String),
    LeftParen,
    RightParen,
}

/// Token of a postfix expression: the infix payloads minus parentheses.
#[derive(Clone, Debug, PartialEq)]
pub enum PostfixToken {
    Operator(Operator),
    Operand(i64),
    Variable(String),
}

/// Mathematical model of an infix token; variable names are character sequences.
pub ghost enum TokenModel {
    Operator(Operator),
    Operand(i64),
    Variable(Seq<char>),
    LeftParen,
    RightParen,
}

/// Mathematical model of a postfix token.
pub ghost enum PostModel {
    Operator(Operator),
    Operand(i64),
    Variable(Seq<char>),
}

impl View for InfixToken {
    type V = TokenModel;

    open spec fn view(&self) -> TokenModel {
        match self {
            InfixToken::Operator(op) => TokenModel::Operator(*op),
            InfixToken::Operand(v) => TokenModel::Operand(*v),
            InfixToken::Variable(name) => TokenModel::Variable(name@),
            InfixToken::LeftParen => TokenModel::LeftParen,
            InfixToken::RightParen => TokenModel::RightParen,
        }
    }
}

impl View for PostfixToken {
    type V = PostModel;

    open spec fn view(&self) -> PostModel {
        match self {
            PostfixToken::Operator(op) => PostModel::Operator(*op),
            PostfixToken::Operand(v) => PostModel::Operand(*v),
            PostfixToken::Variable(name) => PostModel::Variable(name@),
        }
    }
}

/// Model of an infix token sequence.
pub open spec fn view_tokens(ts: Seq<InfixToken>) -> Seq<TokenModel> {
    ts.map(|i: int, t: InfixToken| t@)
}

/// Model of a postfix token sequence.
pub open spec fn view_post(ts: Seq<PostfixToken>) -> Seq<PostModel> {
    ts.map(|i: int, t: PostfixToken| t@)
}

/// The characters the tokenizer splits on.
pub open spec fn is_space(c: char) -> bool {
    c == ' ' || c == '\t' || c == '\n' || c == '\r'
}

/// Decimal digit.
pub open spec fn is_digit(c: char) -> bool {
    48 <= c as u32 <= 57
}

/// Numeric value of a decimal digit character.
pub open spec fn digit_val(c: char) -> int {
    c as u32 as int - 48
}

pub open spec fn all_digits(s: Seq<char>) -> bool {
    forall|k: int| 0 <= k < s.len() ==> is_digit(#[trigger] s[k])
}

/// Value of a sequence of decimal digit characters, most significant first.
pub open spec fn digits_val(s: Seq<char>) -> int
    decreases s.len(),
{
    if s.len() == 0 {
        0
    } else {
        digits_val(s.drop_last()) * 10 + digit_val(s.last())
    }
}

/// Magnitude bound for `i64` operands: `-(2^63)` is the least value.
pub open spec fn spec_min_magnitude() -> int {
    0x8000_0000_0000_0000
}

/// A word that the tokenizer reads as an integer operand: an optional sign
/// followed by at least one decimal digit, with a value that fits in `i64`.
pub open spec fn is_int_literal(w: Seq<char>) -> bool {
    if w.len() == 0 {
        false
    } else if w[0] == '-' {
        let d = w.drop_first();
        d.len() > 0 && all_digits(d) && digits_val(d) <= spec_min_magnitude()
    } else if w[0] == '+' {
        let d = w.drop_first();
        d.len() > 0 && all_digits(d) && digits_val(d) <= i64::MAX
    } else {
        all_digits(w) && digits_val(w) <= i64::MAX
    }
}

/// Value of an integer-literal word.
pub open spec fn int_literal_value(w: Seq<char>) -> int {
    if w[0] == '-' {
        -digits_val(w.drop_first())
    } else if w[0] == '+' {
        digits_val(w.drop_first())
    } else {
        digits_val(w)
    }
}

/// How one whitespace-delimited word becomes a token: the six fixed symbols
/// first, then integer operands, and anything else is a variable reference.
pub open spec fn classify_word(w: Seq<char>) -> TokenModel {
    if w.len() == 1 && w[0] == '+' {
        TokenModel::Operator(Operator::Add)
    } else if w.len() == 1 && w[0] == '-' {
        TokenModel::Operator(Operator::Sub)
    } else if w.len() == 1 && w[0] == '*' {
        TokenModel::Operator(Operator::Mul)
    } else if w.len() == 1 && w[0] == '/' {
        TokenModel::Operator(Operator::Div)
    } else if w.len() == 1 && w[0] == '(' {
        TokenModel::LeftParen
    } else if w.len() == 1 && w[0] == ')' {
        TokenModel::RightParen
    } else if is_int_literal(w) {
        TokenModel::Operand(int_literal_value(w) as i64)
    } else {
        TokenModel::Variable(w)
    }
}

/// Length of the leading run of non-whitespace characters.
pub open spec fn word_len(s: Seq<char>) -> nat
    decreases s.len(),
{
    if s.len() == 0 || is_space(s[0]) {
        0
    } else {
        1 + word_len(s.drop_first())
    }
}

/// The token sequence of an input string: split on whitespace, classify
/// each word.  Total: defined for every character sequence.
pub open spec fn spec_tokenize(s: Seq<char>) -> Seq<TokenModel>
    decreases s.len(),
    via spec_tokenize_decreases
{
    if s.len() == 0 {
        Seq::empty()
    } else if is_space(s[0]) {
        spec_tokenize(s.drop_first())
    } else {
        let n = word_len(s) as int;
        seq![classify_word(s.take(n))] + spec_tokenize(s.skip(n))
    }
}

#[via_fn]
proof fn spec_tokenize_decreases(s: Seq<char>) {
    if s.len() > 0 && !is_space(s[0]) {
        assert(word_len(s) == 1 + word_len(s.drop_first()));
        lemma_word_len_le(s);
        assert(s.skip(word_len(s) as int).len() < s.len());
    }
}

proof fn lemma_word_len_le(s: Seq<char>)
    ensures
        word_len(s) <= s.len(),
    decreases s.len(),
{
    if s.len() > 0 && !is_space(s[0]) {
        lemma_word_len_le(s.drop_first());
    }
}

proof fn lemma_word_len_range(s: Seq<char>, j: int)
    requires
        0 <= j <= s.len(),
        forall|k: int| 0 <= k < j ==> !is_space(#[trigger] s[k]),
        j == s.len() || is_space(s[j]),
    ensures
        word_len(s) == j,
    decreases j,
{
    if j == 0 {
    } else {
        assert(!is_space(s[0]));
        let t = s.drop_first();
        assert forall|k: int| 0 <= k < j - 1 implies !is_space(#[trigger] t[k]) by {
            assert(t[k] == s[k + 1]);
        }
        if j - 1 < t.len() {
            assert(t[j - 1] == s[j]);
        }
        lemma_word_len_range(t, j - 1);
    }
}

proof fn lemma_tokenize_word(s: Seq<char>, j: int)
    requires
        0 < j <= s.len(),
        forall|k: int| 0 <= k < j ==> !is_space(#[trigger] s[k]),
        j == s.len() || is_space(s[j]),
    ensures
        spec_tokenize(s) == seq![classify_word(s.take(j))] + spec_tokenize(s.skip(j)),
{
    lemma_word_len_range(s, j);
}

/// Reads `String::push`: appends one character.
pub assume_specification[ String::push ](s: &mut String, ch: char)
    ensures
        final(s)@ == old(s)@.push(ch),
;

/// Builds the string holding exactly the given characters.
pub fn string_of_chars(cs: &Vec<char>) -> (r: String)
    ensures
        r@ == cs@,
{
    let mut r = String::new();
    let mut i: usize = 0;
    while i < cs.len()
        invariant
            i <= cs.len(),
            r@ == cs@.take(i as int),
        decreases cs.len() - i,
    {
        r.push(cs[i]);
        proof {
            assert(cs@.take(i as int).push(cs@[i as int]) =~= cs@.take(i + 1));
        }
        i = i + 1;
    }
    proof {
        assert(cs@.take(cs@.len() as int) =~= cs@);
    }
    r
}

/// The characters of a string, in order.
pub fn chars_of(s: &str) -> (v: Vec<char>)
    ensures
        v@ == s@,
{
    let n = s.unicode_len();
    let mut v: Vec<char> = Vec::new();
    let mut i: usize = 0;
    while i < n
        invariant
            n == s@.len(),
            i <= n,
            v@ =~= s@.take(i as int),
        decreases n - i,
    {
        v.push(s.get_char(i));
        proof {
            assert(s@.take(i as int).push(s@[i as int]) =~= s@.take(i + 1));
        }
        i = i + 1;
    }
    proof {
        assert(s@.take(n as int) =~= s@);
    }
    v
}

/// Parses a word as a base-10 `i64`, accepting exactly the integer-literal
/// words: an optional `+` or `-` sign, then one or more decimal digits,
/// value in range.
pub fn parse_int(w: &Vec<char>) -> (r: Option<i64>)
    ensures
        r is Some <==> is_int_literal(w@),
        r matches Some(v) ==> v as int == int_literal_value(w@),
{
    let len = w.len();
    if len == 0 {
        return None;
    }
    let first = w[0];
    let neg = first == '-';
    let has_sign = first == '-' || first == '+';
    let start: usize = if has_sign { 1 } else { 0 };
    if start == len {
        return None;
    }
    let ghost d = if has_sign { w@.drop_first() } else { w@ };
    proof {
        if has_sign {
            assert(d =~= w@.subrange(1, len as int));
        }
    }
    let mut acc: u128 = 0;
    let mut too_big = false;
    let mut i: usize = start;
    while i < len
        invariant
            start <= i <= len,
            1 <= len == w@.len(),
            first == w@[0],
            neg == (first == '-'),
            has_sign == (first == '-' || first == '+'),
            start == if has_sign { 1int } else { 0int },
            d == if has_sign { w@.drop_first() } else { w@ },
            forall|k: int| start <= k < i ==> is_digit(#[trigger] w@[k]),
            !too_big ==> acc as int == digits_val(w@.subrange(start as int, i as int))
                && acc as int <= spec_min_magnitude(),
            too_big ==> digits_val(w@.subrange(start as int, i as int)) > spec_min_magnitude(),
        decreases len - i,
    {
        let c = w[i];
        let u = c as u32;
        if !(48 <= u && u <= 57) {
            proof {
                let k = (i - start) as int;
                assert(d[k] == w@[i as int]);
                assert(!is_digit(d[k]));
            }
            return None;
        }
        let ghost prefix = w@.subrange(start as int, i as int);
        let ghost prefix1 = w@.subrange(start as int, i + 1);
        proof {
            assert(prefix1.drop_last() =~= prefix);
            assert(prefix1.last() == w@[i as int]);
            assert(digits_val(prefix1) == digits_val(prefix) * 10 + digit_val(w@[i as int]));
            assert forall|k: int| 0 <= k < prefix.len() implies is_digit(#[trigger] prefix[k]) by {
                assert(prefix[k] == w@[k + start]);
            }
            lemma_digits_val_nonneg(prefix);
        }
        if !too_big {
            let dv: u128 = (u - 48) as u128;
            acc = acc * 10 + dv;
            if acc > 0x8000_0000_0000_0000u128 {
                too_big = true;
            }
        } else {
            proof {
                let v = digits_val(prefix);
                assert(10 * v >= v) by (nonlinear_arith)
                    requires
                        v >= 0,
                ;
                assert(digits_val(prefix1) > spec_min_magnitude());
            }
        }
        i = i + 1;
    }
    let ghost all = w@.subrange(start as int, len as int);
    proof {
        assert(all =~= d);
        assert(all_digits(d)) by {
            assert forall|k: int| 0 <= k < d.len() implies is_digit(#[trigger] d[k]) by {
                assert(d[k] == w@[k + start]);
            }
        }
    }
    if too_big {
        return None;
    }
    if neg {
        let v: i64 = if acc == 0x8000_0000_0000_0000u128 {
            i64::MIN
        } else {
            -(acc as i64)
        };
        Some(v)
    } else {
        if acc > i64::MAX as u128 {
            return None;
        }
        Some(acc as i64)
    }
}

proof fn lemma_digits_val_nonneg(s: Seq<char>)
    requires
        all_digits(s),
    ensures
        digits_val(s) >= 0,
    decreases s.len(),
{
    if s.len() > 0 {
        let t = s.drop_last();
        assert forall|k: int| 0 <= k < t.len() implies is_digit(#[trigger] t[k]) by {
            assert(t[k] == s[k]);
        }
        lemma_digits_val_nonneg(t);
        assert(is_digit(s.last()));
        assert(digits_val(t) * 10 >= 0) by (nonlinear_arith)
            requires
                digits_val(t) >= 0,
        ;
    }
}

/// Turns one word into its token.
fn classify(buf: &Vec<char>) -> (t: InfixToken)
    ensures
        t@ == classify_word(buf@),
{
    if buf.len() == 1 {
        let c = buf[0];
        if c == '+' {
            return InfixToken::Operator(Operator::Add);
        } else if c == '-' {
            return InfixToken::Operator(Operator::Sub);
        } else if c == '*' {
            return InfixToken::Operator(Operator::Mul);
        } else if c == '/' {
            return InfixToken::Operator(Operator::Div);
        } else if c == '(' {
            return InfixToken::LeftParen;
        } else if c == ')' {
            return InfixToken::RightParen;
        }
    }
    match parse_int(buf) {
        Some(v) => InfixToken::Operand(v),
        None => InfixToken::Variable(string_of_chars(buf)),
    }
}

/// Splits the input on whitespace and classifies each word.  Total: no
/// input string fails; an unrecognized word becomes a variable reference.
pub fn tokenize(input_str: &str) -> (tokens: Vec<InfixToken>)
    ensures
        view_tokens(tokens@) == spec_tokenize(input_str@),
{
    let n = input_str.unicode_len();
    let mut tokens: Vec<InfixToken> = Vec::new();
    let mut i: usize = 0;
    proof {
        assert(input_str@.skip(0) =~= input_str@);
        assert(view_tokens(tokens@) =~= Seq::<TokenModel>::empty());
        assert(view_tokens(tokens@) + spec_tokenize(input_str@) =~= spec_tokenize(input_str@));
    }
    while i < n
        invariant
            n == input_str@.len(),
            i <= n,
            view_tokens(tokens@) + spec_tokenize(input_str@.skip(i as int)) == spec_tokenize(
                input_str@,
            ),
        decreases n - i,
    {
        let ghost s = input_str@;
        let c = input_str.get_char(i);
        if c == ' ' || c == '\t' || c == '\n' || c == '\r' {
            proof {
                assert(s.skip(i as int).drop_first() =~= s.skip(i + 1));
            }
            i = i + 1;
        } else {
            let start = i;
            let mut buf: Vec<char> = Vec::new();
            buf.push(c);
            i = i + 1;
            while i < n
                invariant
                    n == s.len(),
                    s == input_str@,
                    start < i <= n,
                    buf@ =~= s.subrange(start as int, i as int),
                    forall|k: int| start <= k < i ==> !is_space(#[trigger] s[k]),
                ensures
                    start < i <= n,
                    buf@ =~= s.subrange(start as int, i as int),
                    forall|k: int| start <= k < i ==> !is_space(#[trigger] s[k]),
                    i == n || is_space(s[i as int]),
                decreases n - i,
            {
                let c2 = input_str.get_char(i);
                if c2 == ' ' || c2 == '\t' || c2 == '\n' || c2 == '\r' {
                    break;
                }
                buf.push(c2);
                proof {
                    assert(s.subrange(start as int, i as int).push(s[i as int]) =~= s.subrange(
                        start as int,
                        i + 1,
                    ));
                }
                i = i + 1;
            }
            proof {
                let rest = s.skip(start as int);
                assert forall|k: int| 0 <= k < i - start implies !is_space(#[trigger] rest[k]) by {
                    assert(rest[k] == s[k + start]);
                }
                if (i as int) < s.len() {
                    assert(rest[i - start] == s[i as int]);
                }
                lemma_tokenize_word(rest, i - start);
                assert(rest.take(i - start) =~= s.subrange(start as int, i as int));
                assert(rest.skip(i - start) =~= s.skip(i as int));
            }
            let tok = classify(&buf);
            let ghost tm = tok@;
            let ghost toks0 = tokens@;
            tokens.push(tok);
            proof {
                assert(view_tokens(tokens@) =~= view_tokens(toks0).push(tm));
                assert(view_tokens(tokens@) + spec_tokenize(s.skip(i as int)) =~= view_tokens(
                    toks0,
                ) + spec_tokenize(s.skip(start as int)));
            }
        }
    }
    proof {
        assert(input_str@.skip(n as int) =~= Seq::<char>::empty());
        assert(view_tokens(tokens@) + Seq::<TokenModel>::empty() =~= view_tokens(tokens@));
    }
    tokens
}

/// Decimal digit character for a value in `0..=9`.
pub open spec fn digit_char(d: int) -> char {
    if d == 0 {
        '0'
    } else if d == 1 {
        '1'
    } else if d == 2 {
        '2'
    } else if d == 3 {
        '3'
    } else if d == 4 {
        '4'
    } else if d == 5 {
        '5'
    } else if d == 6 {
        '6'
    } else if d == 7 {
        '7'
    } else if d == 8 {
        '8'
    } else {
        '9'
    }
}

/// Decimal digits of a nonnegative value, most significant first.
pub open spec fn spec_digits(m: int) -> Seq<char>
    decreases m,
{
    if m < 10 {
        seq![digit_char(m)]
    } else {
        spec_digits(m / 10).push(digit_char(m % 10))
    }
}

/// Decimal rendering of an integer, minus sign first if negative.
pub open spec fn spec_int_str(v: int) -> Seq<char> {
    if v < 0 {
        seq!['-'] + spec_digits(-v)
    } else {
        spec_digits(v)
    }
}

fn digit_char_exec(d: u64) -> (c: char)
    requires
        d < 10,
    ensures
        c == digit_char(d as int),
{
    if d == 0 {
        '0'
    } else if d == 1 {
        '1'
    } else if d == 2 {
        '2'
    } else if d == 3 {
        '3'
    } else if d == 4 {
        '4'
    } else if d == 5 {
        '5'
    } else if d == 6 {
        '6'
    } else if d == 7 {
        '7'
    } else if d == 8 {
        '8'
    } else {
        '9'
    }
}

fn push_digits(m: u64, out: &mut Vec<char>)
    ensures
        final(out)@ == old(out)@ + spec_digits(m as int),
    decreases m,
{
    if m < 10 {
        out.push(digit_char_exec(m));
        proof {
            assert(old(out)@ + spec_digits(m as int) =~= old(out)@.push(digit_char(m as int)));
        }
    } else {
        push_digits(m / 10, out);
        out.push(digit_char_exec(m % 10));
        proof {
            assert(m as int / 10 == (m / 10) as int);
            assert(m as int % 10 == (m % 10) as int);
            assert(old(out)@ + spec_digits(m as int) =~= (old(out)@ + spec_digits(
                m as int / 10,
            )).push(digit_char(m as int % 10)));
        }
    }
}

/// Decimal string of an `i64` value.
pub fn i64_string(v: i64) -> (r: String)
    ensures
        r@ == spec_int_str(v as int),
{
    let mut cs: Vec<char> = Vec::new();
    if v < 0 {
        cs.push('-');
        let m: u64 = ((-(v + 1)) as u64) + 1;
        proof {
            assert(m as int == -(v as int));
        }
        push_digits(m, &mut cs);
        proof {
            assert(Seq::<char>::empty().push('-') + spec_digits(m as int) =~= seq!['-']
                + spec_digits(m as int));
        }
    } else {
        push_digits(v as u64, &mut cs);
        proof {
            assert(Seq::<char>::empty() + spec_digits(v as int) =~= spec_digits(v as int));
        }
    }
    string_of_chars(&cs)
}

/// Decimal string of a `usize` value.
pub fn usize_string(v: usize) -> (r: String)
    ensures
        r@ == spec_int_str(v as int),
{
    let mut cs: Vec<char> = Vec::new();
    push_digits(v as u64, &mut cs);
    proof {
        assert(Seq::<char>::empty() + spec_digits(v as int) =~= spec_digits(v as int));
    }
    string_of_chars(&cs)
}

/// The characters one postfix token prints as.
pub open spec fn spec_token_str(t: PostModel) -> Seq<char> {
    match t {
        PostModel::Operator(Operator::Add) => seq!['+'],
        PostModel::Operator(Operator::Sub) => seq!['-'],
        PostModel::Operator(Operator::Mul) => seq!['*'],
        PostModel::Operator(Operator::Div) => seq!['/'],
        PostModel::Operand(v) => spec_int_str(v as int),
        PostModel::Variable(name) => name,
    }
}

impl PostfixToken {
    /// Prints this token: the operator symbol, the decimal value, or the
    /// variable name.
    pub fn to_string(&self) -> (r: String)
        ensures
            r@ == spec_token_str(self@),
    {
        match self {
            PostfixToken::Operator(op) => {
                let s: &str = match *op {
                    Operator::Add => "+",
                    Operator::Sub => "-",
                    Operator::Mul => "*",
                    Operator::Div => "/",
                };
                proof {
                    reveal_strlit("+");
                    reveal_strlit("-");
                    reveal_strlit("*");
                    reveal_strlit("/");
                    assert("+"@ =~= seq!['+']);
                    assert("-"@ =~= seq!['-']);
                    assert("*"@ =~= seq!['*']);
                    assert("/"@ =~= seq!['/']);
                }
                String::from_str(s)
            },
            PostfixToken::Operand(v) => i64_string(*v),
            PostfixToken::Variable(name) => name.clone(),
        }
    }
}

/// Rendering of a postfix token sequence: token strings joined by single
/// spaces.
pub open spec fn spec_render_postfix(ts: Seq<PostModel>) -> Seq<char>
    decreases ts.len(),
{
    if ts.len() == 0 {
        Seq::empty()
    } else if ts.len() == 1 {
        spec_token_str(ts[0])
    } else {
        spec_render_postfix(ts.drop_last()) + seq![' '] + spec_token_str(ts.last())
    }
}

/// Canonical postfix rendering of a token sequence.
pub fn render_postfix(tokens: &Vec<PostfixToken>) -> (r: String)
    ensures
        r@ == spec_render_postfix(view_post(tokens@)),
{
    let mut r = String::new();
    let mut i: usize = 0;
    while i < tokens.len()
        invariant
            i <= tokens@.len(),
            r@ == spec_render_postfix(view_post(tokens@.take(i as int))),
        decreases tokens@.len() - i,
    {
        let ghost prev = r@;
        if i > 0 {
            r.push(' ');
        }
        let t = tokens[i].to_string();
        r.append(t.as_str());
        proof {
            let vp = view_post(tokens@.take(i + 1));
            assert(vp.drop_last() =~= view_post(tokens@.take(i as int)));
            assert(vp.last() == tokens@[i as int]@);
            if i == 0 {
                assert(prev =~= Seq::<char>::empty());
                assert(r@ =~= spec_token_str(vp[0]));
            } else {
                assert(r@ =~= spec_render_postfix(vp.drop_last()) + seq![' '] + spec_token_str(
                    vp.last(),
                ));
            }
        }
        i = i + 1;
    }
    proof {
        assert(tokens@.take(tokens@.len() as int) =~= tokens@);
    }
    r
}

/// The infix token carrying the same payload as a postfix token.
pub open spec fn infix_model_of(t: PostModel) -> TokenModel {
    match t {
        PostModel::Operator(op) => TokenModel::Operator(op),
        PostModel::Operand(v) => TokenModel::Operand(v),
        PostModel::Variable(nm) => TokenModel::Variable(nm),
    }
}

/// A postfix token whose rendering reads back as itself.  Operators and
/// operands always do; a variable name must be a nonempty word without
/// whitespace that the tokenizer classifies as a variable — exactly what
/// the tokenizer itself produces.
pub open spec fn canonical_token(t: PostModel) -> bool {
    match t {
        PostModel::Operator(op) => true,
        PostModel::Operand(v) => true,
        PostModel::Variable(nm) => nm.len() > 0 && (forall|k: int|
            0 <= k < nm.len() ==> !is_space(#[trigger] nm[k])) && classify_word(nm)
            == TokenModel::Variable(nm),
    }
}

/// An infix token whose variable payload, if any, reads back as itself.
pub open spec fn canonical_infix(t: TokenModel) -> bool {
    match t {
        TokenModel::Variable(nm) => nm.len() > 0 && (forall|k: int|
            0 <= k < nm.len() ==> !is_space(#[trigger] nm[k])) && classify_word(nm)
            == TokenModel::Variable(nm),
        _ => true,
    }
}

/// Every token of the sequence is canonical infix.
pub open spec fn all_canonical_infix(ts: Seq<TokenModel>) -> bool {
    forall|i: int| 0 <= i < ts.len() ==> canonical_infix(#[trigger] ts[i])
}

/// Every token of the sequence is canonical postfix.
pub open spec fn all_canonical(p: Seq<PostModel>) -> bool {
    forall|i: int| 0 <= i < p.len() ==> canonical_token(#[trigger] p[i])
}

/// Every token the tokenizer produces is canonical: a variable name is a
/// nonempty whitespace-free word that classifies as a variable.
pub proof fn lemma_tokenize_canonical(s: Seq<char>)
    ensures
        all_canonical_infix(spec_tokenize(s)),
    decreases s.len(),
{
    if s.len() == 0 {
        assert(all_canonical_infix(spec_tokenize(s)));
    } else if is_space(s[0]) {
        lemma_tokenize_canonical(s.drop_first());
    } else {
        let n = word_len(s) as int;
        let w = s.take(n);
        lemma_word_len_le(s);
        lemma_word_chars_nonspace(s);
        lemma_tokenize_canonical(s.skip(n));
        assert(spec_tokenize(s) == seq![classify_word(w)] + spec_tokenize(s.skip(n)));
        assert(canonical_infix(classify_word(w))) by {
            assert(w.len() == n >= 1);
            assert forall|k: int| 0 <= k < w.len() implies !is_space(#[trigger] w[k]) by {
                assert(w[k] == s[k]);
            }
        }
        let full = seq![classify_word(w)] + spec_tokenize(s.skip(n));
        assert forall|i: int| 0 <= i < full.len() implies canonical_infix(#[trigger] full[i]) by {
            if i == 0 {
                assert(full[0] == classify_word(w));
            } else {
                assert(full[i] == spec_tokenize(s.skip(n))[i - 1]);
            }
        }
        assert(all_canonical_infix(full));
    }
}

proof fn lemma_word_chars_nonspace(s: Seq<char>)
    ensures
        forall|k: int| 0 <= k < word_len(s) ==> !is_space(#[trigger] s[k]),
    decreases s.len(),
{
    if s.len() > 0 && !is_space(s[0]) {
        lemma_word_chars_nonspace(s.drop_first());
        lemma_word_len_le(s);
        assert forall|k: int| 0 <= k < word_len(s) implies !is_space(#[trigger] s[k]) by {
            if k > 0 {
                assert(s.drop_first()[k - 1] == s[k]);
            }
        }
    }
}

proof fn lemma_word_len_at(s: Seq<char>)
    ensures
        word_len(s) < s.len() ==> is_space(s[word_len(s) as int]),
    decreases s.len(),
{
    if s.len() > 0 && !is_space(s[0]) {
        lemma_word_len_at(s.drop_first());
        lemma_word_len_le(s);
        if word_len(s) < s.len() {
            assert(s.drop_first()[word_len(s.drop_first()) as int] == s[word_len(s) as int]);
        }
    }
}

proof fn lemma_tokenize_single_word(w: Seq<char>)
    requires
        w.len() >= 1,
        forall|k: int| 0 <= k < w.len() ==> !is_space(#[trigger] w[k]),
    ensures
        spec_tokenize(w) == seq![classify_word(w)],
{
    assert(!is_space(w[0]));
    lemma_word_len_range(w, w.len() as int);
    assert(w.take(w.len() as int) =~= w);
    assert(w.skip(w.len() as int) =~= Seq::<char>::empty());
    assert(spec_tokenize(w) == seq![classify_word(w.take(w.len() as int))] + spec_tokenize(
        w.skip(w.len() as int),
    ));
    assert(seq![classify_word(w)] + Seq::<TokenModel>::empty() =~= seq![classify_word(w)]);
}

proof fn lemma_tokenize_append(s1: Seq<char>, w: Seq<char>)
    requires
        w.len() >= 1,
        forall|k: int| 0 <= k < w.len() ==> !is_space(#[trigger] w[k]),
    ensures
        spec_tokenize(s1 + seq![' '] + w) == spec_tokenize(s1).push(classify_word(w)),
    decreases s1.len(),
{
    let full = s1 + seq![' '] + w;
    if s1.len() == 0 {
        assert(is_space(full[0]));
        assert(full.drop_first() =~= w);
        lemma_tokenize_single_word(w);
        assert(spec_tokenize(s1) =~= Seq::<TokenModel>::empty());
        assert(Seq::<TokenModel>::empty().push(classify_word(w)) =~= seq![classify_word(w)]);
    } else if is_space(s1[0]) {
        assert(full[0] == s1[0]);
        assert(full.drop_first() =~= s1.drop_first() + seq![' '] + w);
        lemma_tokenize_append(s1.drop_first(), w);
    } else {
        assert(full[0] == s1[0]);
        let j = word_len(s1) as int;
        lemma_word_chars_nonspace(s1);
        lemma_word_len_at(s1);
        lemma_word_len_le(s1);
        assert forall|k: int| 0 <= k < j implies !is_space(#[trigger] full[k]) by {
            assert((s1 + seq![' '])[k] == s1[k]);
            assert(full[k] == (s1 + seq![' '])[k]);
        }
        if j == s1.len() {
            assert((s1 + seq![' '])[j] == ' ');
            assert(full[j] == (s1 + seq![' '])[j]);
            assert(is_space(full[j]));
        } else {
            assert((s1 + seq![' '])[j] == s1[j]);
            assert(full[j] == (s1 + seq![' '])[j]);
            assert(is_space(full[j]));
        }
        lemma_word_len_range(full, j);
        assert(full.take(j) =~= s1.take(j));
        assert(full.skip(j) =~= s1.skip(j) + seq![' '] + w);
        lemma_tokenize_append(s1.skip(j), w);
        assert(spec_tokenize(full) == seq![classify_word(full.take(j))] + spec_tokenize(
            full.skip(j),
        ));
        assert(spec_tokenize(s1) == seq![classify_word(s1.take(j))] + spec_tokenize(s1.skip(j)));
        assert(seq![classify_word(s1.take(j))] + spec_tokenize(s1.skip(j)).push(classify_word(w))
            =~= (seq![classify_word(s1.take(j))] + spec_tokenize(s1.skip(j))).push(
            classify_word(w),
        ));
    }
}

proof fn lemma_digit_char(d: int)
    requires
        0 <= d < 10,
    ensures
        is_digit(digit_char(d)),
        digit_val(digit_char(d)) == d,
        !is_space(digit_char(d)),
        digit_char(d) != '-' && digit_char(d) != '+' && digit_char(d) != '*' && digit_char(d)
            != '/' && digit_char(d) != '(' && digit_char(d) != ')',
{
}

proof fn lemma_spec_digits(m: int)
    requires
        m >= 0,
    ensures
        spec_digits(m).len() >= 1,
        all_digits(spec_digits(m)),
        digits_val(spec_digits(m)) == m,
    decreases m,
{
    if m < 10 {
        lemma_digit_char(m);
        assert(spec_digits(m) =~= seq![digit_char(m)]);
        assert(spec_digits(m).drop_last() =~= Seq::<char>::empty());
        assert(spec_digits(m).last() == digit_char(m));
        assert(digits_val(spec_digits(m)) == digits_val(Seq::<char>::empty()) * 10 + digit_val(
            digit_char(m),
        ));
    } else {
        lemma_spec_digits(m / 10);
        lemma_digit_char(m % 10);
        let d = spec_digits(m / 10);
        assert(d.push(digit_char(m % 10)).drop_last() =~= d);
        assert(d.push(digit_char(m % 10)).last() == digit_char(m % 10));
        assert(digits_val(spec_digits(m)) == digits_val(d) * 10 + (m % 10));
        vstd::arithmetic::div_mod::lemma_fundamental_div_mod(m, 10);
        assert(m / 10 * 10 + m % 10 == m);
        assert forall|k: int|
            0 <= k < spec_digits(m).len() implies is_digit(#[trigger] spec_digits(m)[k]) by {
            if k < d.len() {
                assert(spec_digits(m)[k] == d[k]);
            }
        }
    }
}

proof fn lemma_digits_not_space(s: Seq<char>)
    requires
        all_digits(s),
    ensures
        forall|k: int| 0 <= k < s.len() ==> !is_space(#[trigger] s[k]),
{
    assert forall|k: int| 0 <= k < s.len() implies !is_space(#[trigger] s[k]) by {
        assert(is_digit(s[k]));
    }
}

proof fn lemma_int_str_classifies(v: i64)
    ensures
        spec_int_str(v as int).len() >= 1,
        forall|k: int| 0 <= k < spec_int_str(v as int).len() ==> !is_space(
            #[trigger] spec_int_str(v as int)[k],
        ),
        classify_word(spec_int_str(v as int)) == TokenModel::Operand(v),
{
    let w = spec_int_str(v as int);
    if v >= 0 {
        lemma_spec_digits(v as int);
        lemma_digits_not_space(w);
        if w.len() == 1 {
            assert(is_digit(w[0]));
        }
        assert(is_int_literal(w));
        assert(!(w[0] == '-') && !(w[0] == '+')) by {
            assert(is_digit(w[0]));
        }
        assert(int_literal_value(w) == v as int);
    } else {
        let m = -(v as int);
        lemma_spec_digits(m);
        let d = spec_digits(m);
        assert(w =~= seq!['-'] + d);
        assert(w[0] == '-');
        assert(w.len() >= 2);
        assert(w.drop_first() =~= d);
        assert(m <= spec_min_magnitude());
        assert(is_int_literal(w));
        assert(int_literal_value(w) == -digits_val(d) == v as int);
        lemma_digits_not_space(d);
        assert forall|k: int| 0 <= k < w.len() implies !is_space(#[trigger] w[k]) by {
            if k > 0 {
                assert(w[k] == d[k - 1]);
            }
        }
    }
}

proof fn lemma_token_str_classifies(t: PostModel)
    requires
        canonical_token(t),
    ensures
        spec_token_str(t).len() >= 1,
        forall|k: int| 0 <= k < spec_token_str(t).len() ==> !is_space(
            #[trigger] spec_token_str(t)[k],
        ),
        classify_word(spec_token_str(t)) == infix_model_of(t),
{
    match t {
        PostModel::Operator(op) => {
        },
        PostModel::Operand(v) => {
            lemma_int_str_classifies(v);
        },
        PostModel::Variable(nm) => {
        },
    }
}

/// Re-tokenizing the canonical postfix rendering of a token sequence
/// yields the same tokens, read as infix payloads.
pub proof fn lemma_tokenize_render_postfix(p: Seq<PostModel>)
    requires
        forall|i: int| 0 <= i < p.len() ==> canonical_token(#[trigger] p[i]),
    ensures
        spec_tokenize(spec_render_postfix(p)) == p.map(|i: int, t: PostModel| infix_model_of(t)),
    decreases p.len(),
{
    let f = |i: int, t: PostModel| infix_model_of(t);
    if p.len() == 0 {
        assert(spec_render_postfix(p) =~= Seq::<char>::empty());
        assert(spec_tokenize(Seq::<char>::empty()) =~= Seq::<TokenModel>::empty());
        assert(p.map(f) =~= Seq::<TokenModel>::empty());
    } else if p.len() == 1 {
        lemma_token_str_classifies(p[0]);
        lemma_tokenize_single_word(spec_token_str(p[0]));
        assert(p.map(f) =~= seq![infix_model_of(p[0])]);
    } else {
        let q = p.drop_last();
        assert forall|i: int| 0 <= i < q.len() implies canonical_token(#[trigger] q[i]) by {
            assert(q[i] == p[i]);
        }
        lemma_tokenize_render_postfix(q);
        lemma_token_str_classifies(p.last());
        lemma_tokenize_append(spec_render_postfix(q), spec_token_str(p.last()));
        assert(spec_render_postfix(p) == spec_render_postfix(q) + seq![' '] + spec_token_str(
            p.last(),
        ));
        assert(p.map(f) =~= q.map(f).push(infix_model_of(p.last())));
    }
}

} // verus!
