use vstd::prelude::*;

verus! {

/// The Unicode `White_Space` property, which `char::is_whitespace`,
/// `str::split_whitespace` and `str::trim` go by.
pub open spec fn is_ws(c: char) -> bool {
    let n = c as u32;
    ||| (9 <= n && n <= 13)
    ||| n == 32
    ||| n == 0x85
    ||| n == 0xa0
    ||| n == 0x1680
    ||| (0x2000 <= n && n <= 0x200a)
    ||| n == 0x2028
    ||| n == 0x2029
    ||| n == 0x202f
    ||| n == 0x205f
    ||| n == 0x3000
}

pub fn is_whitespace(c: char) -> (r: bool)
    ensures
        r == is_ws(c),
{
    let n = c as u32;
    (9 <= n && n <= 13) || n == 32 || n == 0x85 || n == 0xa0 || n == 0x1680 || (0x2000 <= n && n
        <= 0x200a) || n == 0x2028 || n == 0x2029 || n == 0x202f || n == 0x205f || n == 0x3000
}

/// Which characters separate the items of a list.
#[derive(Clone, Copy, PartialEq, Eq, Debug)]
pub enum Separators {
    /// Whitespace only, as `str::split_whitespace`.
    Whitespace,
    /// Commas and whitespace: the lists of test names in unit files.
    CommaOrWhitespace,
    /// Commas and spaces: the lists of jig names in unit files.
    CommaOrSpace,
}

pub open spec fn is_sep(m: Separators, c: char) -> bool {
    match m {
        Separators::Whitespace => is_ws(c),
        Separators::CommaOrWhitespace => c == ',' || is_ws(c),
        Separators::CommaOrSpace => c == ',' || c == ' ',
    }
}

fn is_separator(m: Separators, c: char) -> (r: bool)
    ensures
        r == is_sep(m, c),
{
    match m {
        Separators::Whitespace => is_whitespace(c),
        Separators::CommaOrWhitespace => c == ',' || is_whitespace(c),
        Separators::CommaOrSpace => c == ',' || c == ' ',
    }
}

/// Reading `s` from the left: the items already closed by a separator, and
/// the item still being read.
pub open spec fn token_state(s: Seq<char>, m: Separators) -> (Seq<Seq<char>>, Seq<char>)
    decreases s.len(),
{
    if s.len() == 0 {
        (seq![], seq![])
    } else {
        let (done, cur) = token_state(s.drop_last(), m);
        if is_sep(m, s.last()) {
            if cur.len() > 0 {
                (done.push(cur), seq![])
            } else {
                (done, seq![])
            }
        } else {
            (done, cur.push(s.last()))
        }
    }
}

/// The non-empty maximal runs of non-separator characters of `s`, in order.
pub open spec fn tokens(s: Seq<char>, m: Separators) -> Seq<Seq<char>> {
    let (done, cur) = token_state(s, m);
    if cur.len() > 0 {
        done.push(cur)
    } else {
        done
    }
}

/// Reading `s` from the left, as a list of comma-separated items whose
/// whitespace is dropped: the items already closed by a comma, and the
/// item still being read.
pub open spec fn comma_state(s: Seq<char>) -> (Seq<Seq<char>>, Seq<char>)
    decreases s.len(),
{
    if s.len() == 0 {
        (seq![], seq![])
    } else {
        let (done, cur) = comma_state(s.drop_last());
        if s.last() == ',' {
            (done.push(cur), seq![])
        } else if is_ws(s.last()) {
            (done, cur)
        } else {
            (done, cur.push(s.last()))
        }
    }
}

/// The items of `s` between its commas, each with its whitespace dropped
/// (the words of one item run together); empty items stay.
pub open spec fn comma_items(s: Seq<char>) -> Seq<Seq<char>> {
    comma_state(s).0.push(comma_state(s).1)
}

/// The views of a sequence of strings.
pub open spec fn strings_view(v: Seq<String>) -> Seq<Seq<char>> {
    v.map_values(|s: String| s@)
}

/// The characters of `s`, in order.
#[verifier::external_body]
pub(crate) fn str_chars(s: &str) -> (r: Vec<char>)
    ensures
        r@ == s@,
{
    s.chars().collect()
}

/// The string made of `chars`, in order.
#[verifier::external_body]
pub(crate) fn string_from_chars(chars: &Vec<char>) -> (r: String)
    ensures
        r@ == chars@,
{
    chars.iter().collect()
}

/// Splits `s` into its non-empty items, as separated by `m`.
pub fn tokenize(s: &str, m: Separators) -> (r: Vec<String>)
    ensures
        strings_view(r@) == tokens(s@, m),
{
    let chars = str_chars(s);
    let mut done: Vec<String> = Vec::new();
    let mut cur: Vec<char> = Vec::new();
    let mut i: usize = 0;
    assert(chars@.take(0) =~= seq![]);
    while i < chars.len()
        invariant
            i <= chars.len(),
            chars@ == s@,
            strings_view(done@) == token_state(chars@.take(i as int), m).0,
            cur@ == token_state(chars@.take(i as int), m).1,
        decreases chars.len() - i,
    {
        let c = chars[i];
        assert(chars@.take(i + 1).drop_last() =~= chars@.take(i as int));
        assert(chars@.take(i + 1).last() == c);
        if is_separator(m, c) {
            if cur.len() > 0 {
                let w = string_from_chars(&cur);
                let ghost old_done = done@;
                done.push(w);
                assert(strings_view(done@) =~= strings_view(old_done).push(cur@));
                cur = Vec::new();
            } else {
                cur = Vec::new();
            }
        } else {
            cur.push(c);
        }
        i = i + 1;
    }
    assert(chars@.take(chars.len() as int) =~= chars@);
    if cur.len() > 0 {
        let w = string_from_chars(&cur);
        let ghost old_done = done@;
        done.push(w);
        assert(strings_view(done@) =~= strings_view(old_done).push(cur@));
    }
    done
}

/// How many times `c` occurs in `s`.
pub open spec fn count_char(s: Seq<char>, c: char) -> nat
    decreases s.len(),
{
    if s.len() == 0 {
        0
    } else {
        count_char(s.drop_last(), c) + if s.last() == c {
            1nat
        } else {
            0nat
        }
    }
}

/// What a list with no name in it splits into when each comma ends an
/// item: one empty name per comma, and one more.
pub open spec fn empty_items(s: Seq<char>) -> Seq<Seq<char>> {
    Seq::new(count_char(s, ',') + 1, |i: int| Seq::<char>::empty())
}

/// How many commas `s` holds.
pub fn count_commas(s: &str) -> (r: usize)
    ensures
        r == count_char(s@, ','),
{
    let chars = str_chars(s);
    let mut n: usize = 0;
    let mut i: usize = 0;
    assert(chars@.take(0) =~= seq![]);
    while i < chars.len()
        invariant
            i <= chars.len(),
            chars@ == s@,
            n == count_char(chars@.take(i as int), ','),
            n <= i,
        decreases chars.len() - i,
    {
        assert(chars@.take(i + 1).drop_last() =~= chars@.take(i as int));
        if chars[i] == ',' {
            n = n + 1;
        }
        i = i + 1;
    }
    assert(chars@.take(chars.len() as int) =~= chars@);
    n
}

/// The empty names of `empty_items(s)`.
pub fn empty_item_list(s: &str) -> (r: Vec<String>)
    requires
        count_char(s@, ',') + 1 < u32::MAX,
    ensures
        strings_view(r@) == empty_items(s@),
{
    let n = count_commas(s);
    let mut r: Vec<String> = Vec::new();
    let mut k: usize = 0;
    while k <= n
        invariant
            k <= n + 1,
            n == count_char(s@, ','),
            n + 1 < u32::MAX,
            strings_view(r@) =~= Seq::new(k as nat, |j: int| Seq::<char>::empty()),
        decreases n + 1 - k,
    {
        let e = String::new();
        let ghost old_r = r@;
        r.push(e);
        assert(strings_view(r@) =~= strings_view(old_r).push(Seq::<char>::empty()));
        k = k + 1;
    }
    r
}

/// Splits `s` at its commas, dropping the whitespace of each item (see
/// `comma_items`).
pub fn split_commas(s: &str) -> (r: Vec<String>)
    ensures
        strings_view(r@) == comma_items(s@),
{
    let chars = str_chars(s);
    let mut done: Vec<String> = Vec::new();
    let mut cur: Vec<char> = Vec::new();
    let mut i: usize = 0;
    assert(chars@.take(0) =~= seq![]);
    while i < chars.len()
        invariant
            i <= chars.len(),
            chars@ == s@,
            strings_view(done@) == comma_state(chars@.take(i as int)).0,
            cur@ == comma_state(chars@.take(i as int)).1,
        decreases chars.len() - i,
    {
        let c = chars[i];
        assert(chars@.take(i + 1).drop_last() =~= chars@.take(i as int));
        assert(chars@.take(i + 1).last() == c);
        if c == ',' {
            let w = string_from_chars(&cur);
            let ghost old_done = done@;
            done.push(w);
            assert(strings_view(done@) =~= strings_view(old_done).push(cur@));
            cur = Vec::new();
        } else if !is_whitespace(c) {
            cur.push(c);
        }
        i = i + 1;
    }
    assert(chars@.take(chars.len() as int) =~= chars@);
    let w = string_from_chars(&cur);
    let ghost old_done = done@;
    done.push(w);
    assert(strings_view(done@) =~= strings_view(old_done).push(cur@));
    done
}

/// `str::to_lowercase`: the full Unicode lower-case mapping of a string.
pub uninterp spec fn lowercase(s: Seq<char>) -> Seq<char>;

/// Calls `str::to_lowercase`; the result is the lower-case mapping of `s`,
/// named `lowercase`.
#[verifier::external_body]
pub(crate) fn to_lowercase(s: &str) -> (r: String)
    ensures
        r@ == lowercase(s@),
{
    s.to_lowercase()
}

/// Whether two strings hold the same characters.
pub fn str_eq(a: &str, b: &str) -> (r: bool)
    ensures
        r == (a@ == b@),
{
    let x = str_chars(a);
    let y = str_chars(b);
    if x.len() != y.len() {
        return false;
    }
    let mut i: usize = 0;
    while i < x.len()
        invariant
            i <= x.len(),
            x.len() == y.len(),
            x@ == a@,
            y@ == b@,
            forall|j: int| 0 <= j < i ==> x@[j] == y@[j],
        decreases x.len() - i,
    {
        if x[i] != y[i] {
            return false;
        }
        i = i + 1;
    }
    assert(x@ =~= y@);
    true
}

// ---------------------------------------------------------------------------
// Decimal numbers
pub open spec fn digit_char(d: nat) -> char {
    if d == 0 {
        '0'
    } else if d == 1 {
        '1'
    } else if d == 2 {
        '2'
    } else if d == 3 {
        '3'
    } else if d == 4 {
        '4'
    } else if d == 5 {
        '5'
    } else if d == 6 {
        '6'
    } else if d == 7 {
        '7'
    } else if d == 8 {
        '8'
    } else {
        '9'
    }
}

/// The decimal representation of `n`, without leading zeros.
pub open spec fn decimal(n: nat) -> Seq<char>
    decreases n,
{
    if n < 10 {
        seq![digit_char(n)]
    } else {
        decimal(n / 10).push(digit_char(n % 10))
    }
}

fn digit(d: u64) -> (c: char)
    requires
        d < 10,
    ensures
        c == digit_char(d as nat),
{
    if d == 0 {
        '0'
    } else if d == 1 {
        '1'
    } else if d == 2 {
        '2'
    } else if d == 3 {
        '3'
    } else if d == 4 {
        '4'
    } else if d == 5 {
        '5'
    } else if d == 6 {
        '6'
    } else if d == 7 {
        '7'
    } else if d == 8 {
        '8'
    } else {
        '9'
    }
}

fn decimal_chars(n: u64) -> (r: Vec<char>)
    ensures
        r@ == decimal(n as nat),
    decreases n,
{
    if n < 10 {
        let mut v = Vec::new();
        v.push(digit(n));
        v
    } else {
        let mut v = decimal_chars(n / 10);
        v.push(digit(n % 10));
        v
    }
}

/// Formats `n` in decimal, as `format!("{}", n)` does.
pub fn u64_to_decimal(n: u64) -> (r: String)
    ensures
        r@ == decimal(n as nat),
{
    let v = decimal_chars(n);
    string_from_chars(&v)
}

pub open spec fn is_digit(c: char) -> bool {
    48 <= (c as u32) && (c as u32) <= 57
}

pub open spec fn digit_value(c: char) -> nat {
    ((c as u32) - 48) as nat
}

pub open spec fn all_digits(t: Seq<char>) -> bool {
    forall|i: int| 0 <= i < t.len() ==> is_digit(#[trigger] t[i])
}

pub open spec fn digits_value(t: Seq<char>) -> nat
    decreases t.len(),
{
    if t.len() == 0 {
        0
    } else {
        digits_value(t.drop_last()) * 10 + digit_value(t.last())
    }
}

/// The number that `str::parse` reads from `s` for an unsigned integer type
/// of unbounded width: an optional `+`, then one or more ASCII digits.
pub open spec fn parse_unsigned(s: Seq<char>) -> Option<nat> {
    let t = if s.len() > 0 && s[0] == '+' {
        s.drop_first()
    } else {
        s
    };
    if t.len() > 0 && all_digits(t) {
        Some(digits_value(t))
    } else {
        None
    }
}

/// What `s.parse::<u64>()` gives: `None` where std reports an error.
pub open spec fn parse_u64_spec(s: Seq<char>) -> Option<u64> {
    match parse_unsigned(s) {
        Some(v) => if v <= u64::MAX {
            Some(v as u64)
        } else {
            None
        },
        None => None,
    }
}

/// What `s.parse::<u32>()` gives: `None` where std reports an error.
pub open spec fn parse_u32_spec(s: Seq<char>) -> Option<u32> {
    match parse_unsigned(s) {
        Some(v) => if v <= u32::MAX {
            Some(v as u32)
        } else {
            None
        },
        None => None,
    }
}

/// Reads an unsigned number: `None` where the text is not an optional `+`
/// followed by ASCII digits, or where the value exceeds `max`.
fn parse_bounded(s: &str, max: u64) -> (r: Option<u64>)
    requires
        max >= 9,
    ensures
        r == (match parse_unsigned(s@) {
            Some(v) => if v <= max {
                Some(v as u64)
            } else {
                None
            },
            None => None,
        }),
{
    let chars = str_chars(s);
    let start: usize = if chars.len() > 0 && chars[0] == '+' {
        1
    } else {
        0
    };
    let ghost t = if s@.len() > 0 && s@[0] == '+' {
        s@.drop_first()
    } else {
        s@
    };
    assert(t =~= chars@.skip(start as int));
    if start >= chars.len() {
        return None;
    }
    let mut i: usize = start;
    let mut value: u64 = 0;
    let mut overflow = false;
    assert(t.take(0) =~= seq![]);
    while i < chars.len()
        invariant
            start <= i <= chars.len(),
            chars@ == s@,
            max >= 9,
            t == (if s@.len() > 0 && s@[0] == '+' {
                s@.drop_first()
            } else {
                s@
            }),
            t =~= chars@.skip(start as int),
            forall|j: int| 0 <= j < i - start ==> is_digit(#[trigger] t[j]),
            !overflow ==> value == digits_value(t.take(i - start)),
            !overflow ==> value <= max,
            overflow ==> digits_value(t.take(i - start)) > max,
        decreases chars.len() - i,
    {
        let c = chars[i];
        let n = c as u32;
        assert(t[i - start] == c);
        if n < 48 || n > 57 {
            assert(!is_digit(t[i - start]));
            assert(!all_digits(t));
            return None;
        }
        let d = (n - 48) as u64;
        assert(d <= 9);
        assert(d == digit_value(c));
        assert(t.take(i - start + 1).drop_last() =~= t.take(i - start));
        assert(t.take(i - start + 1).last() == c);
        if !overflow {
            if value > (max - d) / 10 {
                overflow = true;
                assert(value * 10 + d > max) by (nonlinear_arith)
                    requires
                        value > (max - d) / 10,
                        d < 10,
                        max >= 9,
                ;
            } else {
                assert(value * 10 + d <= max) by (nonlinear_arith)
                    requires
                        value <= (max - d) / 10,
                        d < 10,
                ;
                value = value * 10 + d;
            }
        } else {
            assert(digits_value(t.take(i - start + 1)) == digits_value(t.take(i - start)) * 10
                + d);
        }
        i = i + 1;
    }
    assert(t.take(i - start) =~= t);
    assert(all_digits(t));
    if overflow {
        None
    } else {
        Some(value)
    }
}

/// `s.parse::<u64>()`, with `None` for each error that std reports.
pub fn parse_u64(s: &str) -> (r: Option<u64>)
    ensures
        r == parse_u64_spec(s@),
{
    parse_bounded(s, u64::MAX)
}

/// `s.parse::<u32>()`, with `None` for each error that std reports.
pub fn parse_u32(s: &str) -> (r: Option<u32>)
    ensures
        r == parse_u32_spec(s@),
{
    match parse_bounded(s, 0xffff_ffff) {
        Some(v) => Some(v as u32),
        None => None,
    }
}

/// The decimal representation of a signed number, with a leading `-` where
/// it is negative.
pub open spec fn signed_decimal(n: int) -> Seq<char> {
    if n < 0 {
        seq!['-'] + decimal((-n) as nat)
    } else {
        decimal(n as nat)
    }
}

/// Formats `n` in decimal, as `format!("{}", n)` does.
pub fn i32_to_decimal(n: i32) -> (r: String)
    ensures
        r@ == signed_decimal(n as int),
{
    if n < 0 {
        let m: u64 = (0 - (n as i64)) as u64;
        let mut v: Vec<char> = Vec::new();
        v.push('-');
        let mut d = decimal_chars(m);
        let ghost dv = d@;
        v.append(&mut d);
        assert(v@ =~= seq!['-'] + dv);
        string_from_chars(&v)
    } else {
        u64_to_decimal(n as u64)
    }
}

/// The concatenation of two strings.
pub fn concat(a: &String, b: &String) -> (r: String)
    ensures
        r@ == a@ + b@,
{
    let mut x = str_chars(a.as_str());
    let mut y = str_chars(b.as_str());
    let ghost xv = x@;
    let ghost yv = y@;
    x.append(&mut y);
    assert(x@ =~= xv + yv);
    string_from_chars(&x)
}

// ---------------------------------------------------------------------------
// Escaping of message text
/// How one character of a message is written on a line-oriented stream:
/// backslash, tab and line feed (and carriage return, where `with_cr`) are
/// written as a backslash followed by `\`, `t`, `n` (and `r`).
pub open spec fn escape_char(c: char, with_cr: bool) -> Seq<char> {
    if c == '\\' {
        seq!['\\', '\\']
    } else if c == '\t' {
        seq!['\\', 't']
    } else if c == '\n' {
        seq!['\\', 'n']
    } else if with_cr && c == '\r' {
        seq!['\\', 'r']
    } else {
        seq![c]
    }
}

pub open spec fn escaped(s: Seq<char>, with_cr: bool) -> Seq<char>
    decreases s.len(),
{
    if s.len() == 0 {
        seq![]
    } else {
        escaped(s.drop_last(), with_cr) + escape_char(s.last(), with_cr)
    }
}

/// Escapes `s` for a tab-separated line (see `escape_char`).
pub fn escape(s: &str, with_cr: bool) -> (r: String)
    ensures
        r@ == escaped(s@, with_cr),
{
    let chars = str_chars(s);
    let mut out: Vec<char> = Vec::new();
    let mut i: usize = 0;
    assert(chars@.take(0) =~= seq![]);
    while i < chars.len()
        invariant
            i <= chars.len(),
            chars@ == s@,
            out@ == escaped(chars@.take(i as int), with_cr),
        decreases chars.len() - i,
    {
        let c = chars[i];
        assert(chars@.take(i + 1).drop_last() =~= chars@.take(i as int));
        assert(chars@.take(i + 1).last() == c);
        let ghost before = out@;
        if c == '\\' {
            out.push('\\');
            out.push('\\');
        } else if c == '\t' {
            out.push('\\');
            out.push('t');
        } else if c == '\n' {
            out.push('\\');
            out.push('n');
        } else if with_cr && c == '\r' {
            out.push('\\');
            out.push('r');
        } else {
            out.push(c);
        }
        assert(out@ =~= before + escape_char(c, with_cr));
        i = i + 1;
    }
    assert(chars@.take(chars.len() as int) =~= chars@);
    string_from_chars(&out)
}

/// The character an escape `\c` stands for: `\\`, `\t`, `\n` and `\r`
/// are escapes; after any other character the backslash stands for itself.
pub open spec fn escape_meaning(c: char) -> Option<char> {
    if c == '\\' {
        Some('\\')
    } else if c == 't' {
        Some('\t')
    } else if c == 'n' {
        Some('\n')
    } else if c == 'r' {
        Some('\r')
    } else {
        None
    }
}

/// What a received word means once unescaped, read from the left: each
/// escape stands for its character (see `escape_meaning`); every other
/// character, a lone backslash among them, stands for itself.
pub open spec fn unescaped(s: Seq<char>) -> Seq<char>
    decreases s.len(),
{
    if s.len() == 0 {
        seq![]
    } else if s.len() >= 2 && s[0] == '\\' && escape_meaning(s[1]) is Some {
        seq![escape_meaning(s[1]).unwrap()] + unescaped(s.skip(2))
    } else {
        seq![s[0]] + unescaped(s.skip(1))
    }
}

fn escape_meaning_of(c: char) -> (r: Option<char>)
    ensures
        r == escape_meaning(c),
{
    if c == '\\' {
        Some('\\')
    } else if c == 't' {
        Some('\t')
    } else if c == 'n' {
        Some('\n')
    } else if c == 'r' {
        Some('\r')
    } else {
        None
    }
}

/// Undoes the escaping of a received word (see `unescaped`).
pub fn unescape(s: &str) -> (r: String)
    ensures
        r@ == unescaped(s@),
{
    let chars = str_chars(s);
    let mut out: Vec<char> = Vec::new();
    let mut i: usize = 0;
    assert(chars@.skip(0) =~= chars@);
    while i < chars.len()
        invariant
            i <= chars.len(),
            chars@ == s@,
            unescaped(s@) == out@ + unescaped(chars@.skip(i as int)),
        decreases chars.len() - i,
    {
        let ghost rest = chars@.skip(i as int);
        let mut two = false;
        if i + 1 < chars.len() && chars[i] == '\\' {
            match escape_meaning_of(chars[i + 1]) {
                Some(d) => {
                    assert(rest.skip(2) =~= chars@.skip(i + 2));
                    assert(out@ + unescaped(rest) =~= out@.push(d) + unescaped(chars@.skip(i + 2)));
                    out.push(d);
                    two = true;
                },
                None => {},
            }
        }
        if two {
            i = i + 2;
        } else {
            assert(rest.skip(1) =~= chars@.skip(i + 1));
            assert(out@ + unescaped(rest) =~= out@.push(chars@[i as int]) + unescaped(
                chars@.skip(i + 1),
            ));
            out.push(chars[i]);
            i = i + 1;
        }
    }
    assert(chars@.skip(i as int) =~= seq![]);
    assert(out@ + seq![] =~= out@);
    string_from_chars(&out)
}

/// Escaping, read from the front: the escape of the first character, then
/// that of the rest.
pub proof fn lemma_escaped_front(s: Seq<char>, with_cr: bool)
    requires
        s.len() > 0,
    ensures
        escaped(s, with_cr) == escape_char(s[0], with_cr) + escaped(s.skip(1), with_cr),
    decreases s.len(),
{
    if s.len() == 1 {
        assert(s.drop_last() =~= seq![]);
        assert(s.skip(1) =~= seq![]);
        assert(escaped(s.skip(1), with_cr) =~= seq![]);
        assert(escaped(s, with_cr) =~= escape_char(s[0], with_cr));
    } else {
        lemma_escaped_front(s.drop_last(), with_cr);
        assert(s.drop_last().skip(1) =~= s.skip(1).drop_last());
        assert(s.skip(1).last() == s.last());
        assert(escaped(s, with_cr) =~= escape_char(s[0], with_cr) + escaped(s.skip(1), with_cr));
    }
}

/// Unescaping reads `a` and then `b` where `a` is whole escapes.
proof fn lemma_unescaped_escape(c: char, with_cr: bool, rest: Seq<char>)
    ensures
        unescaped(escape_char(c, with_cr) + rest) == seq![c] + unescaped(rest),
{
    let e = escape_char(c, with_cr);
    let t = e + rest;
    if e.len() == 2 {
        assert(t[0] == '\\' && t[1] == e[1]);
        assert(t.skip(2) =~= rest);
    } else {
        assert(t[0] == c);
        assert(t.skip(1) =~= rest);
        if c == '\\' || c == '\t' || c == '\n' || (with_cr && c == '\r') {
            assert(false);
        }
        assert(!(t.len() >= 2 && t[0] == '\\' && escape_meaning(t[1]) is Some));
    }
}

/// Unescaping undoes escaping.
pub proof fn law_unescape_undoes_escape(s: Seq<char>, with_cr: bool)
    ensures
        unescaped(escaped(s, with_cr)) == s,
    decreases s.len(),
{
    if s.len() == 0 {
        assert(escaped(s, with_cr) =~= seq![]);
        assert(unescaped(seq![]) =~= s);
    } else {
        lemma_escaped_front(s, with_cr);
        lemma_unescaped_escape(s[0], with_cr, escaped(s.skip(1), with_cr));
        law_unescape_undoes_escape(s.skip(1), with_cr);
        assert(seq![s[0]] + s.skip(1) =~= s);
    }
}

} // verus!
