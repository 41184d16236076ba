use vstd::prelude::*;

verus! {

// The gcode crate's lexer reads a source as tokens; a command letter
// (G, M or T) takes the next token as its number, which it converts to a
// fixed-point `u32` as `major * 10 + minor`. Where that arithmetic leaves
// `u32`, or where a parenthesised comment nests deeper than `u32::MAX`,
// the parser does not return. The spec functions below follow the lexer
// token by token and say where that happens.

pub open spec fn is_blank(c: char) -> bool {
    c == ' ' || c == '\t' || c == '\r'
}

pub open spec fn is_digit(c: char) -> bool {
    '0' <= c && c <= '9'
}

pub open spec fn is_alpha(c: char) -> bool {
    ('a' <= c && c <= 'z') || ('A' <= c && c <= 'Z')
}

/// G, M or T in either case: a command that takes the next token as its number.
pub open spec fn is_command_letter(c: char) -> bool {
    c == 'G' || c == 'g' || c == 'M' || c == 'm' || c == 'T' || c == 't'
}

/// N or O in either case: a line or program number that takes the next token.
pub open spec fn is_number_letter(c: char) -> bool {
    c == 'N' || c == 'n' || c == 'O' || c == 'o'
}

/// A character that continues a run of unknown text.
pub open spec fn is_unknown(c: char) -> bool {
    !(c == ' ' || c == '\t' || c == '\n' || c == ';' || c == '(' || c == '-' || c == '+')
        && !is_alpha(c) && !is_digit(c)
}

pub open spec fn skip_blanks(s: Seq<char>, i: int) -> int
    decreases s.len() - i,
{
    if 0 <= i < s.len() && is_blank(s[i]) {
        skip_blanks(s, i + 1)
    } else {
        i
    }
}

pub open spec fn digits_end(s: Seq<char>, i: int) -> int
    decreases s.len() - i,
{
    if 0 <= i < s.len() && is_digit(s[i]) {
        digits_end(s, i + 1)
    } else {
        i
    }
}

pub open spec fn line_end(s: Seq<char>, i: int) -> int
    decreases s.len() - i,
{
    if 0 <= i < s.len() && s[i] != '\n' {
        line_end(s, i + 1)
    } else {
        i
    }
}

pub open spec fn unknown_end(s: Seq<char>, i: int) -> int
    decreases s.len() - i,
{
    if 0 <= i < s.len() && is_unknown(s[i]) {
        unknown_end(s, i + 1)
    } else {
        i
    }
}

/// Where a parenthesised comment open to `depth` ends, and whether its
/// nesting would pass `u32::MAX`.
pub open spec fn paren_scan(s: Seq<char>, j: int, depth: nat) -> (int, bool)
    decreases s.len() - j,
{
    if depth == 0 || j < 0 || j >= s.len() {
        (j, false)
    } else if s[j] == '(' {
        if depth >= u32::MAX {
            (j + 1, true)
        } else {
            paren_scan(s, j + 1, depth + 1)
        }
    } else if s[j] == ')' {
        paren_scan(s, j + 1, (depth - 1) as nat)
    } else {
        paren_scan(s, j + 1, depth)
    }
}

/// A number token: an optional '.', digits, and an optional '.' with digits.
pub open spec fn number_end(s: Seq<char>, j: int) -> int {
    let _n = s.len();
    let k = if s[j] == '.' {
        j + 1
    } else {
        j
    };
    let a = digits_end(s, k);
    if 0 <= a < s.len() && s[a] == '.' {
        digits_end(s, a + 1)
    } else {
        a
    }
}

/// Where the token that starts at `j` (not a blank) ends.
pub open spec fn token_end(s: Seq<char>, j: int) -> int {
    let _n = s.len();
    let c = s[j];
    if c == '\n' || c == '%' || c == '-' || c == '+' || c == '/' || is_alpha(c) {
        j + 1
    } else if c == ';' {
        line_end(s, j)
    } else if c == '(' {
        paren_scan(s, j + 1, 1).0
    } else if is_digit(c) || c == '.' {
        number_end(s, j)
    } else {
        unknown_end(s, j)
    }
}

/// The value of a run of decimal digits.
pub open spec fn digits_value(t: Seq<char>) -> nat
    decreases t.len(),
{
    if t.len() == 0 {
        0
    } else {
        digits_value(t.drop_last()) * 10 + ((t.last() as int) - ('0' as int)) as nat
    }
}

/// The number token at `j`, read as a command number, overflows `u32`:
/// its integer part `major` and its one-digit fraction `minor` parse, and
/// `major * 10 + minor` exceeds `u32::MAX`.
pub open spec fn number_overflows(s: Seq<char>, j: int) -> bool {
    let a = digits_end(s, j);
    let major = digits_value(s.subrange(j, a));
    &&& is_digit(s[j])
    &&& major <= u32::MAX
    &&& if 0 <= a < s.len() && s[a] == '.' {
        let b = digits_end(s, a + 1);
        let minor = digits_value(s.subrange(a + 1, b));
        b > a + 1 && minor <= 9 && major * 10 + minor > u32::MAX
    } else {
        major * 10 > u32::MAX
    }
}

/// Reading from `i` on, where the token there is the operand of the
/// previous one exactly when `operand` holds, the parser would not return.
pub open spec fn overflows_from(s: Seq<char>, i: int, operand: bool) -> bool
    decreases s.len() - i,
{
    if i < 0 || i >= s.len() {
        false
    } else {
        let j = skip_blanks(s, i);
        if j < i || j >= s.len() {
            false
        } else {
            let c = s[j];
            let e = token_end(s, j);
            if c == '(' && paren_scan(s, j + 1, 1).1 {
                true
            } else if e <= j || e > s.len() {
                false
            } else if is_command_letter(c) && !operand {
                let k = skip_blanks(s, e);
                if e <= k < s.len() && (is_digit(s[k]) || s[k] == '.') && number_overflows(s, k) {
                    true
                } else {
                    overflows_from(s, e, true)
                }
            } else {
                overflows_from(s, e, !operand && is_number_letter(c))
            }
        }
    }
}

/// The gcode crate's parser would not return on `source`: a command
/// number that leaves `u32`, or comments nested deeper than `u32::MAX`.
pub open spec fn command_number_overflows(source: Seq<char>) -> bool {
    overflows_from(source, 0, false)
}

/// The characters of `source`, in order.
fn source_chars(source: &str) -> (r: Vec<char>)
    ensures
        r@ == source@,
{
    let mut chars: Vec<char> = Vec::new();
    for c in it: source.chars()
        invariant
            chars@ == it.seq().take(it.index() as int),
    {
        chars.push(c);
    }
    chars
}

fn char_is_digit(c: char) -> (r: bool)
    ensures
        r == is_digit(c),
{
    '0' <= c && c <= '9'
}

fn char_is_alpha(c: char) -> (r: bool)
    ensures
        r == is_alpha(c),
{
    ('a' <= c && c <= 'z') || ('A' <= c && c <= 'Z')
}

fn exec_skip_blanks(s: &Vec<char>, i: usize) -> (r: usize)
    requires
        i <= s@.len(),
    ensures
        r == skip_blanks(s@, i as int),
        i <= r <= s@.len(),
{
    let mut k = i;
    while k < s.len() && (s[k] == ' ' || s[k] == '\t' || s[k] == '\r')
        invariant
            i <= k <= s@.len(),
            skip_blanks(s@, i as int) == skip_blanks(s@, k as int),
        decreases s@.len() - k,
    {
        k = k + 1;
    }
    k
}

fn exec_digits_end(s: &Vec<char>, i: usize) -> (r: usize)
    requires
        i <= s@.len(),
    ensures
        r == digits_end(s@, i as int),
        i <= r <= s@.len(),
{
    let mut k = i;
    while k < s.len() && char_is_digit(s[k])
        invariant
            i <= k <= s@.len(),
            digits_end(s@, i as int) == digits_end(s@, k as int),
        decreases s@.len() - k,
    {
        k = k + 1;
    }
    k
}

fn exec_line_end(s: &Vec<char>, i: usize) -> (r: usize)
    requires
        i <= s@.len(),
    ensures
        r == line_end(s@, i as int),
        i <= r <= s@.len(),
{
    let mut k = i;
    while k < s.len() && s[k] != '\n'
        invariant
            i <= k <= s@.len(),
            line_end(s@, i as int) == line_end(s@, k as int),
        decreases s@.len() - k,
    {
        k = k + 1;
    }
    k
}

fn exec_unknown_end(s: &Vec<char>, i: usize) -> (r: usize)
    requires
        i <= s@.len(),
    ensures
        r == unknown_end(s@, i as int),
        i <= r <= s@.len(),
{
    let mut k = i;
    while k < s.len() && !(s[k] == ' ' || s[k] == '\t' || s[k] == '\n' || s[k] == ';' || s[k]
        == '(' || s[k] == '-' || s[k] == '+') && !char_is_alpha(s[k]) && !char_is_digit(s[k])
        invariant
            i <= k <= s@.len(),
            unknown_end(s@, i as int) == unknown_end(s@, k as int),
        decreases s@.len() - k,
    {
        k = k + 1;
    }
    k
}

fn exec_paren_scan(s: &Vec<char>, j: usize) -> (r: (usize, bool))
    requires
        j <= s@.len(),
    ensures
        r.0 == paren_scan(s@, j as int, 1).0,
        r.1 == paren_scan(s@, j as int, 1).1,
        j <= r.0 <= s@.len(),
{
    let mut k = j;
    let mut depth: u64 = 1;
    while depth > 0 && k < s.len()
        invariant
            j <= k <= s@.len(),
            depth <= u32::MAX,
            paren_scan(s@, j as int, 1) == paren_scan(s@, k as int, depth as nat),
        decreases s@.len() - k,
    {
        if s[k] == '(' {
            if depth == 0xFFFF_FFFF {
                return (k + 1, true);
            }
            depth = depth + 1;
        } else if s[k] == ')' {
            depth = depth - 1;
        }
        k = k + 1;
    }
    (k, false)
}

fn exec_number_end(s: &Vec<char>, j: usize) -> (r: usize)
    requires
        j < s@.len(),
    ensures
        r == number_end(s@, j as int),
        j <= r <= s@.len(),
{
    let _n = s.len();
    let k = if s[j] == '.' {
        j + 1
    } else {
        j
    };
    let a = exec_digits_end(s, k);
    if a < s.len() && s[a] == '.' {
        exec_digits_end(s, a + 1)
    } else {
        a
    }
}

fn exec_token_end(s: &Vec<char>, j: usize) -> (r: usize)
    requires
        j < s@.len(),
    ensures
        r == token_end(s@, j as int),
        r <= s@.len(),
{
    let _n = s.len();
    let c = s[j];
    if c == '\n' || c == '%' || c == '-' || c == '+' || c == '/' || char_is_alpha(c) {
        j + 1
    } else if c == ';' {
        exec_line_end(s, j)
    } else if c == '(' {
        exec_paren_scan(s, j + 1).0
    } else if char_is_digit(c) || c == '.' {
        exec_number_end(s, j)
    } else {
        exec_unknown_end(s, j)
    }
}

proof fn lemma_digits_value_step(t: Seq<char>, c: char)
    ensures
        digits_value(t.push(c)) == digits_value(t) * 10 + ((c as int) - ('0' as int)) as nat,
{
    assert(t.push(c).drop_last() =~= t);
}

proof fn lemma_digits_end_all_digits(s: Seq<char>, i: int, k: int)
    requires
        0 <= i <= k <= digits_end(s, i),
        i <= s.len(),
    ensures
        forall|m: int| i <= m < k ==> is_digit(#[trigger] s[m]),
        k <= s.len(),
    decreases k - i,
{
    if i < k {
        assert(0 <= i < s.len() && is_digit(s[i]));
        lemma_digits_end_all_digits(s, i + 1, k);
    }
}

/// The value of the digits `s[a..b]`, or `None` where it exceeds `u32::MAX`.
fn exec_digits_value(s: &Vec<char>, a: usize, b: usize) -> (r: Option<u64>)
    requires
        a <= b <= s@.len(),
        forall|m: int| a <= m < b ==> is_digit(#[trigger] s@[m]),
    ensures
        match r {
            Some(v) => v == digits_value(s@.subrange(a as int, b as int)) && v <= u32::MAX,
            None => digits_value(s@.subrange(a as int, b as int)) > u32::MAX,
        },
{
    let mut v: u64 = 0;
    let mut k = a;
    proof {
        assert(s@.subrange(a as int, a as int) =~= Seq::<char>::empty());
    }
    while k < b
        invariant
            a <= k <= b <= s@.len(),
            forall|m: int| a <= m < b ==> is_digit(#[trigger] s@[m]),
            v <= u32::MAX,
            v == digits_value(s@.subrange(a as int, k as int)),
        decreases b - k,
    {
        let c = s[k];
        assert(is_digit(s@[k as int]));
        let d = (c as u64) - ('0' as u64);
        proof {
            lemma_digits_value_step(s@.subrange(a as int, k as int), c);
            assert(s@.subrange(a as int, k as int).push(c) =~= s@.subrange(a as int, k + 1));
        }
        let nv = v * 10 + d;
        k = k + 1;
        if nv > 0xFFFF_FFFF {
            proof {
                lemma_digits_value_big(s@, a as int, k as int, b as int);
            }
            return None;
        }
        v = nv;
    }
    Some(v)
}

proof fn lemma_digits_value_big(s: Seq<char>, a: int, k: int, b: int)
    requires
        0 <= a <= k <= b <= s.len(),
        forall|m: int| a <= m < b ==> is_digit(#[trigger] s[m]),
        digits_value(s.subrange(a, k)) > u32::MAX,
    ensures
        digits_value(s.subrange(a, b)) > u32::MAX,
    decreases b - k,
{
    if k < b {
        let c = s[k];
        lemma_digits_value_step(s.subrange(a, k), c);
        assert(s.subrange(a, k + 1) =~= s.subrange(a, k).push(c));
        assert(is_digit(s[k]));
        lemma_digits_value_big(s, a, k + 1, b);
    }
}

fn exec_number_overflows(s: &Vec<char>, j: usize) -> (r: bool)
    requires
        j < s@.len(),
    ensures
        r == number_overflows(s@, j as int),
{
    if !char_is_digit(s[j]) {
        return false;
    }
    let a = exec_digits_end(s, j);
    proof {
        lemma_digits_end_all_digits(s@, j as int, a as int);
    }
    let major = match exec_digits_value(s, j, a) {
        Some(v) => v,
        None => {
            return false;
        },
    };
    if a < s.len() && s[a] == '.' {
        let b = exec_digits_end(s, a + 1);
        proof {
            lemma_digits_end_all_digits(s@, a + 1, b as int);
        }
        if b <= a + 1 {
            return false;
        }
        match exec_digits_value(s, a + 1, b) {
            Some(minor) => minor <= 9 && major * 10 + minor > 0xFFFF_FFFF,
            None => false,
        }
    } else {
        major * 10 > 0xFFFF_FFFF
    }
}

/// Text with no command letter and no opening parenthesis never makes
/// the parser fail to return.
pub proof fn lemma_no_command_no_overflow(s: Seq<char>)
    requires
        forall|k: int| 0 <= k < s.len() ==> !is_command_letter(#[trigger] s[k]) && s[k] != '(',
    ensures
        !command_number_overflows(s),
{
    lemma_no_command_from(s, 0, false);
}

proof fn lemma_no_command_from(s: Seq<char>, i: int, operand: bool)
    requires
        forall|k: int| 0 <= k < s.len() ==> !is_command_letter(#[trigger] s[k]) && s[k] != '(',
    ensures
        !overflows_from(s, i, operand),
    decreases s.len() - i,
{
    if 0 <= i < s.len() {
        let j = skip_blanks(s, i);
        if i <= j < s.len() {
            let c = s[j];
            let e = token_end(s, j);
            if j < e <= s.len() {
                lemma_no_command_from(s, e, !operand && is_number_letter(c));
            }
        }
    }
}

/// A command letter that opens the text, followed by nothing but a run of
/// digits whose value fits `u32` while ten times it does not, is a command
/// number that leaves `u32`: the parser would not return on such text.
pub proof fn lemma_oversized_command_number(letter: char, digits: Seq<char>)
    requires
        is_command_letter(letter),
        digits.len() >= 1,
        forall|k: int| 0 <= k < digits.len() ==> is_digit(#[trigger] digits[k]),
        digits_value(digits) <= u32::MAX,
        digits_value(digits) * 10 > u32::MAX,
    ensures
        command_number_overflows(seq![letter] + digits),
{
    let s = seq![letter] + digits;
    assert(s[0] == letter);
    assert(skip_blanks(s, 0) == 0);
    assert(token_end(s, 0) == 1);
    assert(s[1] == digits[0]);
    assert(skip_blanks(s, 1) == 1);
    lemma_digits_end_to_len(s, 1);
    assert(s.subrange(1, s.len() as int) =~= digits);
    assert(number_overflows(s, 1));
}

proof fn lemma_digits_end_to_len(s: Seq<char>, i: int)
    requires
        0 <= i <= s.len(),
        forall|k: int| i <= k < s.len() ==> is_digit(#[trigger] s[k]),
    ensures
        digits_end(s, i) == s.len(),
    decreases s.len() - i,
{
    if i < s.len() {
        assert(is_digit(s[i]));
        lemma_digits_end_to_len(s, i + 1);
    }
}

/// Whether the gcode crate's parser returns on `source`: every command
/// number fits its `u32` and comments nest at most `u32::MAX` deep.
pub fn command_numbers_fit(source: &str) -> (r: bool)
    ensures
        r == !command_number_overflows(source@),
{
    let s = source_chars(source);
    let mut i: usize = 0;
    let mut operand = false;
    while i < s.len()
        invariant
            i <= s@.len(),
            s@ == source@,
            command_number_overflows(source@) == overflows_from(s@, i as int, operand),
        decreases s@.len() - i,
    {
        let j = exec_skip_blanks(&s, i);
        if j >= s.len() {
            return true;
        }
        let c = s[j];
        if c == '(' && exec_paren_scan(&s, j + 1).1 {
            return false;
        }
        let e = exec_token_end(&s, j);
        if e <= j || e > s.len() {
            return true;
        }
        if (c == 'G' || c == 'g' || c == 'M' || c == 'm' || c == 'T' || c == 't') && !operand {
            let k = exec_skip_blanks(&s, e);
            if k < s.len() && (char_is_digit(s[k]) || s[k] == '.') && exec_number_overflows(&s, k) {
                return false;
            }
            operand = true;
        } else {
            operand = !operand && (c == 'N' || c == 'n' || c == 'O' || c == 'o');
        }
        i = e;
    }
    true
}

} // verus!
