//! Characters and strings: decimal numerals, blank text, fitting and wrapping,
//! and the parts of a `/`-separated path.
use vstd::prelude::*;
use vstd::string::{StrSliceExecFns, StringExecFns};

verus! {

/// `String::push` appends one character.
pub assume_specification[ String::push ](s: &mut String, c: char)
    ensures
        final(s)@ == old(s)@.push(c),
;

/// The characters of `s`, in order.
pub fn characters(s: &str) -> (r: Vec<char>)
    ensures
        r@ == s@,
{
    let mut r: Vec<char> = Vec::new();
    for c in it: s.chars()
        invariant
            it.seq() == s@,
            r@ == s@.take(it.index()),
    {
        r.push(c);
        assert(s@.take(it.index() + 1) =~= s@.take(it.index()).push(c));
    }
    assert(s@.take(s@.len() as int) =~= s@);
    r
}

/// The string made of `chars[from..to]`.
pub fn assemble(chars: &Vec<char>, from: usize, to: usize) -> (r: String)
    requires
        from <= to <= chars@.len(),
    ensures
        r@ == chars@.subrange(from as int, to as int),
{
    let mut r = String::new();
    let mut i: usize = from;
    while i < to
        invariant
            from <= i <= to <= chars@.len(),
            r@ == chars@.subrange(from as int, i as int),
        decreases to - i,
    {
        r.push(chars[i]);
        i += 1;
        assert(chars@.subrange(from as int, i as int) =~= chars@.subrange(
            from as int,
            i - 1,
        ).push(chars@[i - 1]));
    }
    r
}

/// Whether two texts hold the same characters.
pub fn same(a: &str, b: &str) -> (r: bool)
    ensures
        r == (a@ == b@),
{
    String::from_str(a) == String::from_str(b)
}

pub open spec fn digit(d: nat) -> char {
    (48 + d) as char
}

/// The decimal numeral of `n`, without leading zeros.
pub open spec fn decimal(n: nat) -> Seq<char>
    decreases n,
{
    if n < 10 {
        seq![digit(n)]
    } else {
        decimal(n / 10).push(digit(n % 10))
    }
}

pub fn decimal_text(n: u64) -> (r: String)
    ensures
        r@ == decimal(n as nat),
    decreases n,
{
    let mut r = if n < 10 {
        String::new()
    } else {
        decimal_text(n / 10)
    };
    let d: u8 = (n % 10) as u8;
    let c: char = (48 + d) as char;
    r.push(c);
    assert(r@ =~= decimal(n as nat));
    r
}

/// The Unicode `White_Space` characters.
pub open spec fn whitespace(c: char) -> bool {
    let u = c as u32;
    ||| 0x9 <= u <= 0xD
    ||| u == 0x20
    ||| u == 0x85
    ||| u == 0xA0
    ||| u == 0x1680
    ||| 0x2000 <= u <= 0x200A
    ||| u == 0x2028
    ||| u == 0x2029
    ||| u == 0x202F
    ||| u == 0x205F
    ||| u == 0x3000
}

pub fn is_whitespace(c: char) -> (r: bool)
    ensures
        r == whitespace(c),
{
    let u: u32 = c as u32;
    (0x9 <= u && u <= 0xD) || u == 0x20 || u == 0x85 || u == 0xA0 || u == 0x1680 || (0x2000 <= u
        && u <= 0x200A) || u == 0x2028 || u == 0x2029 || u == 0x202F || u == 0x205F || u == 0x3000
}

/// Nothing but white space, or nothing at all.
pub open spec fn blank(s: Seq<char>) -> bool {
    forall|i: int| 0 <= i < s.len() ==> whitespace(#[trigger] s[i])
}

pub fn is_blank(s: &str) -> (r: bool)
    ensures
        r == blank(s@),
{
    let chars = characters(s);
    let mut i: usize = 0;
    while i < chars.len()
        invariant
            chars@ == s@,
            i <= chars@.len(),
            forall|j: int| 0 <= j < i ==> whitespace(#[trigger] s@[j]),
        decreases chars.len() - i,
    {
        if !is_whitespace(chars[i]) {
            assert(!whitespace(s@[i as int]));
            return false;
        }
        i += 1;
    }
    true
}

/// `c` with an upper-case ASCII letter made lower-case.
pub open spec fn lower(c: char) -> char {
    if 65 <= c as u32 <= 90 {
        ((c as u32) + 32) as char
    } else {
        c
    }
}

fn lower_case(c: char) -> (r: char)
    ensures
        r == lower(c),
{
    let u: u32 = c as u32;
    if 65 <= u && u <= 90 {
        let b: u8 = u as u8;
        (b + 32) as char
    } else {
        c
    }
}

/// `s` with its upper-case ASCII letters made lower-case.
pub open spec fn lowered(s: Seq<char>) -> Seq<char> {
    s.map_values(|c: char| lower(c))
}

/// Compares two texts without regard to the case of ASCII letters.
pub fn same_ignoring_case(a: &str, b: &str) -> (r: bool)
    ensures
        r == (lowered(a@) == lowered(b@)),
{
    let x = characters(a);
    let y = characters(b);
    if x.len() != y.len() {
        assert(lowered(a@).len() != lowered(b@).len());
        return false;
    }
    let mut i: usize = 0;
    while i < x.len()
        invariant
            x@ == a@,
            y@ == b@,
            x@.len() == y@.len(),
            i <= x@.len(),
            forall|j: int| 0 <= j < i ==> lower(#[trigger] a@[j]) == lower(b@[j]),
        decreases x.len() - i,
    {
        if lower_case(x[i]) != lower_case(y[i]) {
            assert(lowered(a@)[i as int] != lowered(b@)[i as int]);
            return false;
        }
        i += 1;
    }
    assert(lowered(a@) =~= lowered(b@));
    true
}

pub open spec fn is_digit(c: char) -> bool {
    48 <= c as u32 <= 57
}

/// The number that a run of decimal digits stands for.
pub open spec fn numeral_value(s: Seq<char>) -> nat
    decreases s.len(),
{
    if s.len() == 0 {
        0
    } else {
        numeral_value(s.drop_last()) * 10 + (s.last() as u32 - 48) as nat
    }
}

pub open spec fn all_digits(s: Seq<char>) -> bool {
    forall|i: int| 0 <= i < s.len() ==> is_digit(#[trigger] s[i])
}

/// Digits after an optional plus sign.
pub open spec fn unsigned_digits(s: Seq<char>) -> Seq<char> {
    if s.len() > 0 && s[0] == '+' {
        s.skip(1)
    } else {
        s
    }
}

/// The unsigned number written in `s`, if it is one and is at most `max`.
pub open spec fn unsigned(s: Seq<char>, max: nat) -> Option<nat> {
    let digits = unsigned_digits(s);
    if digits.len() > 0 && all_digits(digits) && numeral_value(digits) <= max {
        Some(numeral_value(digits))
    } else {
        None
    }
}

proof fn lemma_numeral_grows(s: Seq<char>, i: int)
    requires
        0 <= i <= s.len(),
        all_digits(s),
    ensures
        numeral_value(s.take(i)) <= numeral_value(s),
    decreases s.len() - i,
{
    if i < s.len() {
        lemma_numeral_grows(s, i + 1);
        assert(s.take(i + 1).drop_last() =~= s.take(i));
        assert(is_digit(s[i]));
        assert(s.take(i + 1).last() == s[i]);
    } else {
        assert(s.take(i) =~= s);
    }
}

/// Reads an unsigned decimal number no larger than `max`.
pub fn parse_unsigned(s: &str, max: u64) -> (r: Option<u64>)
    ensures
        match r {
            Some(v) => unsigned(s@, max as nat) == Some(v as nat),
            None => unsigned(s@, max as nat) is None,
        },
{
    let chars = characters(s);
    let start: usize = if chars.len() > 0 && chars[0] == '+' {
        1
    } else {
        0
    };
    let ghost digits = unsigned_digits(s@);
    if start == chars.len() {
        assert(digits.len() == 0);
        return None;
    }
    let mut value: u64 = 0;
    let mut i: usize = start;
    while i < chars.len()
        invariant
            chars@ == s@,
            digits == unsigned_digits(s@),
            start <= i <= chars@.len(),
            start <= 1,
            digits == s@.skip(start as int),
            forall|j: int| 0 <= j < i - start ==> is_digit(#[trigger] digits[j]),
            value == numeral_value(digits.take(i - start)),
            value <= max,
        decreases chars.len() - i,
    {
        let u: u32 = chars[i] as u32;
        assert(digits[i - start] == s@[i as int]);
        if u < 48 || u > 57 {
            assert(!is_digit(digits[i - start]));
            return None;
        }
        let d: u64 = (u - 48) as u64;
        assert(digits.take(i - start + 1).drop_last() =~= digits.take(i - start));
        assert(digits.take(i - start + 1).last() == digits[i - start]);
        assert(is_digit(digits[i - start]));
        assert(numeral_value(digits.take(i - start + 1)) == value * 10 + d);
        if value > max / 10 || d > max - value * 10 {
            proof {
                if all_digits(digits) {
                    lemma_numeral_grows(digits, i - start + 1);
                }
            }
            return None;
        }
        value = value * 10 + d;
        i += 1;
    }
    assert(digits.take(i - start) =~= digits);
    Some(value)
}

/// `s` with every character outside ASCII replaced by a question mark.
pub open spec fn plain(s: Seq<char>) -> Seq<char> {
    s.map_values(
        |c: char|
            if (c as u32) < 128 {
                c
            } else {
                '?'
            },
    )
}

/// Plain text cut to `columns` characters, three dots marking the cut.
pub open spec fn fitted(s: Seq<char>, columns: nat) -> Seq<char> {
    if s.len() > columns {
        plain(s).take(
            if columns >= 3 {
                columns - 3
            } else {
                0
            },
        ) + "..."@
    } else {
        plain(s)
    }
}

/// Makes `s` drawable in `columns` columns of the bitmap font.
pub fn fit(s: &str, columns: usize) -> (r: String)
    ensures
        r@ == fitted(s@, columns as nat),
{
    let chars = characters(s);
    let cut = chars.len() > columns;
    let keep: usize = if !cut {
        chars.len()
    } else if columns >= 3 {
        columns - 3
    } else {
        0
    };
    let mut r = String::new();
    let mut i: usize = 0;
    while i < keep
        invariant
            chars@ == s@,
            i <= keep <= chars@.len(),
            r@ == plain(s@).take(i as int),
        decreases keep - i,
    {
        let c: char = if (chars[i] as u32) < 128 {
            chars[i]
        } else {
            '?'
        };
        r.push(c);
        i += 1;
        assert(plain(s@).take(i as int) =~= plain(s@).take(i - 1).push(plain(s@)[i - 1]));
    }
    if cut {
        r.append("...");
    } else {
        assert(plain(s@).take(keep as int) =~= plain(s@));
    }
    r
}

/// Number of lines that `length` characters fill, five at most.
pub open spec fn line_count(length: nat, columns: nat) -> nat {
    let full = (length + columns - 1) / columns as int;
    if full > 5 {
        5
    } else {
        full as nat
    }
}

/// The `i`-th line of text broken after every `columns` characters.
pub open spec fn line(s: Seq<char>, columns: nat, i: int) -> Seq<char> {
    s.subrange(
        i * columns,
        if (i + 1) * columns <= s.len() {
            (i + 1) * columns
        } else {
            s.len() as int
        },
    )
}

/// Breaks a message into lines of `columns` characters, the first five only.
pub fn wrap(s: &str, columns: usize) -> (r: Vec<String>)
    requires
        columns >= 1,
    ensures
        r@.len() == line_count(s@.len(), columns as nat),
        forall|i: int| 0 <= i < r@.len() ==> (#[trigger] r@[i])@ == line(s@, columns as nat, i),
{
    let chars = characters(s);
    let mut r: Vec<String> = Vec::new();
    let mut from: usize = 0;
    let ghost c = columns as int;
    let ghost n = s@.len() as int;
    while from < chars.len() && r.len() < 5
        invariant
            chars@ == s@,
            columns >= 1,
            c == columns,
            n == s@.len(),
            r@.len() <= 5,
            from <= n,
            from < n ==> from == r@.len() * c,
            from == n ==> (r@.len() - 1) * c < n <= r@.len() * c || (n == 0 && r@.len() == 0),
            forall|i: int|
                0 <= i < r@.len() ==> (#[trigger] r@[i])@ == line(s@, columns as nat, i),
        decreases chars.len() - from,
    {
        let to: usize = if chars.len() - from > columns {
            from + columns
        } else {
            chars.len()
        };
        let ghost k = r@.len() as int;
        assert((k + 1) * c == k * c + c) by (nonlinear_arith);
        r.push(assemble(&chars, from, to));
        from = to;
    }
    proof {
        let k = r@.len() as int;
        if from == n {
            if n > 0 {
                assert((n + c - 1) / c == k) by (nonlinear_arith)
                    requires
                        c >= 1,
                        (k - 1) * c < n <= k * c,
                ;
            } else {
                assert((c - 1) / c == 0) by (nonlinear_arith)
                    requires
                        c >= 1,
                ;
            }
        } else {
            assert((n + c - 1) / c > 5) by (nonlinear_arith)
                requires
                    c >= 1,
                    5 * c < n,
            ;
        }
    }
    r
}

/// Index of the last `c` in `s`, or -1.
pub open spec fn last_of(s: Seq<char>, c: char) -> int
    decreases s.len(),
{
    if s.len() == 0 {
        -1
    } else if s.last() == c {
        s.len() - 1
    } else {
        last_of(s.drop_last(), c)
    }
}

pub proof fn lemma_last_of(s: Seq<char>, c: char)
    ensures
        -1 <= last_of(s, c) < s.len(),
    decreases s.len(),
{
    if s.len() > 0 {
        lemma_last_of(s.drop_last(), c);
    }
}

/// How many of the first `to` characters lie up to and with the last `c`.
fn after_last(chars: &Vec<char>, to: usize, c: char) -> (r: usize)
    requires
        to <= chars@.len(),
    ensures
        r == last_of(chars@.take(to as int), c) + 1,
        r <= to,
{
    let mut i: usize = to;
    while i > 0
        invariant
            i <= to <= chars@.len(),
            last_of(chars@.take(to as int), c) == last_of(chars@.take(i as int), c),
        decreases i,
    {
        assert(chars@.take(i as int).drop_last() =~= chars@.take(i - 1));
        if chars[i - 1] == c {
            return i;
        }
        i -= 1;
    }
    0
}

/// The last named component of a `/`-separated path. Empty and `.` components
/// at its end are passed over, and `..` is not a name.
pub open spec fn file_name(path: Seq<char>) -> Option<Seq<char>>
    decreases path.len(),
{
    proof {
        lemma_last_of(path, '/');
    }
    let slash = last_of(path, '/');
    let name = path.skip(slash + 1);
    if name.len() == 0 || name == seq!['.'] {
        if slash < 0 {
            None
        } else {
            file_name(path.take(slash))
        }
    } else if name == seq!['.', '.'] {
        None
    } else {
        Some(name)
    }
}

/// The file name of `path`.
pub fn path_file_name(path: &str) -> (r: Option<String>)
    ensures
        match r {
            Some(name) => file_name(path@) == Some(name@),
            None => file_name(path@) is None,
        },
{
    let chars = characters(path);
    let mut to: usize = chars.len();
    assert(path@.take(to as int) =~= path@);
    loop
        invariant
            chars@ == path@,
            to <= chars@.len(),
            file_name(path@) == file_name(path@.take(to as int)),
        decreases to,
    {
        let ghost rest = path@.take(to as int);
        let from: usize = after_last(&chars, to, '/');
        proof {
            lemma_last_of(rest, '/');
        }
        let ghost name = rest.skip(from as int);
        assert(name =~= path@.subrange(from as int, to as int));
        let skipped = from == to || (to - from == 1 && chars[from] == '.');
        assert(skipped <==> name.len() == 0 || name =~= seq!['.']) by {
            if from + 1 == to {
                assert(name[0] == path@[from as int]);
            }
        }
        if skipped {
            if from == 0 {
                return None;
            }
            assert(rest.take(from - 1) =~= path@.take(from - 1));
            to = from - 1;
        } else {
            let up = to - from == 2 && chars[from] == '.' && chars[from + 1] == '.';
            assert(up <==> name =~= seq!['.', '.']) by {
                if from + 2 == to {
                    assert(name[0] == path@[from as int]);
                    assert(name[1] == path@[from + 1]);
                }
            }
            if up {
                return None;
            }
            return Some(assemble(&chars, from, to));
        }
    }
}

/// A file name up to its last dot; a name that only starts with a dot is whole.
pub open spec fn stem(name: Seq<char>) -> Seq<char> {
    let dot = last_of(name, '.');
    if dot <= 0 {
        name
    } else {
        name.take(dot)
    }
}

/// What follows the last dot of a file name that does not only start with one.
pub open spec fn extension(name: Seq<char>) -> Option<Seq<char>> {
    let dot = last_of(name, '.');
    if dot <= 0 {
        None
    } else {
        Some(name.skip(dot + 1))
    }
}

/// The stem of the file that `path` names.
pub open spec fn file_stem(path: Seq<char>) -> Option<Seq<char>> {
    match file_name(path) {
        Some(name) => Some(stem(name)),
        None => None,
    }
}

/// The extension of the file that `path` names.
pub open spec fn file_extension(path: Seq<char>) -> Option<Seq<char>> {
    match file_name(path) {
        Some(name) => extension(name),
        None => None,
    }
}

pub fn path_stem(path: &str) -> (r: Option<String>)
    ensures
        match r {
            Some(s) => file_stem(path@) == Some(s@),
            None => file_stem(path@) is None,
        },
{
    match path_file_name(path) {
        Some(name) => {
            let chars = characters(name.as_str());
            let dot: usize = after_last(&chars, chars.len(), '.');
            assert(chars@.take(chars@.len() as int) =~= chars@);
            if dot <= 1 {
                Some(name)
            } else {
                let r = assemble(&chars, 0, dot - 1);
                assert(r@ =~= name@.take(dot - 1));
                Some(r)
            }
        },
        None => None,
    }
}

pub fn path_extension(path: &str) -> (r: Option<String>)
    ensures
        match r {
            Some(s) => file_extension(path@) == Some(s@),
            None => file_extension(path@) is None,
        },
{
    match path_file_name(path) {
        Some(name) => {
            let chars = characters(name.as_str());
            let dot: usize = after_last(&chars, chars.len(), '.');
            assert(chars@.take(chars@.len() as int) =~= chars@);
            if dot <= 1 {
                None
            } else {
                let r = assemble(&chars, dot, chars.len());
                assert(r@ =~= name@.skip(dot as int));
                Some(r)
            }
        },
        None => None,
    }
}

/// How many characters of white space `s` begins with.
pub open spec fn leading(s: Seq<char>) -> nat
    decreases s.len(),
{
    if s.len() > 0 && whitespace(s[0]) {
        1 + leading(s.skip(1))
    } else {
        0
    }
}

/// `s` without white space at its ends.
pub open spec fn trimmed(s: Seq<char>) -> Seq<char> {
    let rest = s.skip(leading(s) as int);
    rest.take(rest.len() - trailing(rest))
}

/// How many characters of white space `s` ends with.
pub open spec fn trailing(s: Seq<char>) -> nat
    decreases s.len(),
{
    if s.len() > 0 && whitespace(s.last()) {
        1 + trailing(s.drop_last())
    } else {
        0
    }
}

proof fn lemma_ends(s: Seq<char>)
    ensures
        leading(s) <= s.len(),
        trailing(s) <= s.len(),
    decreases s.len(),
{
    if s.len() > 0 {
        lemma_ends(s.skip(1));
        lemma_ends(s.drop_last());
    }
}

pub fn trim(s: &str) -> (r: String)
    ensures
        r@ == trimmed(s@),
{
    let chars = characters(s);
    let mut from: usize = 0;
    assert(s@.skip(0) =~= s@);
    while from < chars.len() && is_whitespace(chars[from])
        invariant
            chars@ == s@,
            from <= chars@.len(),
            leading(s@) == from + leading(s@.skip(from as int)),
        decreases chars.len() - from,
    {
        assert(s@.skip(from as int)[0] == s@[from as int]);
        assert(s@.skip(from as int).skip(1) =~= s@.skip(from + 1));
        from += 1;
    }
    assert(from == leading(s@)) by {
        if from < s@.len() {
            assert(s@.skip(from as int)[0] == s@[from as int]);
        }
    }
    let ghost rest = s@.skip(from as int);
    let mut to: usize = chars.len();
    assert(rest.take(rest.len() as int) =~= rest);
    while to > from && is_whitespace(chars[to - 1])
        invariant
            chars@ == s@,
            from <= to <= chars@.len(),
            rest == s@.skip(from as int),
            trailing(rest) == chars@.len() - to + trailing(rest.take(to - from)),
        decreases to,
    {
        let ghost now = rest.take(to - from);
        assert(now.last() == s@[to - 1]);
        assert(now.drop_last() =~= rest.take(to - from - 1));
        to -= 1;
    }
    proof {
        lemma_ends(s@);
        lemma_ends(rest);
        let now = rest.take(to - from);
        if to > from {
            assert(now.last() == s@[to - 1]);
        }
        assert(s@.subrange(from as int, to as int) =~= trimmed(s@));
    }
    assemble(&chars, from, to)
}

/// A text that is cut to fit is no wider than its columns, three of which the
/// dots take.
pub proof fn law_fitted_text_fits(s: Seq<char>, columns: nat)
    requires
        columns >= 3,
    ensures
        fitted(s, columns).len() <= columns,
{
    reveal_strlit("...");
}

/// A numeral is read back as the number it was written from: it is made of digits,
/// stands for the number, and has no leading zero.
pub proof fn law_numerals(n: nat)
    ensures
        decimal(n).len() > 0,
        all_digits(decimal(n)),
        numeral_value(decimal(n)) == n,
        decimal(n)[0] == '0' <==> n == 0,
        n < 10 <==> decimal(n).len() == 1,
        forall|max: nat| #[trigger]
            unsigned(decimal(n), max) == (if n <= max {
                Some(n)
            } else {
                None
            }),
    decreases n,
{
    if n < 10 {
        assert(decimal(n).drop_last() =~= Seq::<char>::empty());
        assert(numeral_value(Seq::<char>::empty()) == 0);
        assert(decimal(n).last() as u32 == 48 + n);
    } else {
        assert(decimal(n).last() as u32 == 48 + n % 10);
        law_numerals(n / 10);
        assert(decimal(n).drop_last() =~= decimal(n / 10));
        assert forall|i: int| 0 <= i < decimal(n).len() implies is_digit(#[trigger] decimal(n)[i]) by {
            if i < decimal(n / 10).len() {
                assert(decimal(n)[i] == decimal(n / 10)[i]);
                assert(is_digit(decimal(n / 10)[i]));
            }
        }
        assert(decimal(n)[0] == decimal(n / 10)[0]);
    }
    assert(is_digit(decimal(n)[0]));
}

/// Numerals are positional: a digit stands for its distance from zero, and putting
/// one more behind a numeral makes ten times as much and that digit.
pub proof fn law_places_count_tenfold(s: Seq<char>, d: nat)
    requires
        d < 10,
    ensures
        numeral_value(Seq::empty()) == 0,
        numeral_value(s.push(digit(d))) == 10 * numeral_value(s) + d,
        digit(0) == '0' && digit(1) == '1' && digit(9) == '9',
        is_digit(digit(d)),
{
    assert(s.push(digit(d)).drop_last() =~= s);
}

/// A number is read from digits alone, with or without a plus sign in front, and
/// only up to its limit.
pub proof fn law_reading_numbers(s: Seq<char>, max: nat)
    ensures
        unsigned(Seq::empty(), max) is None,
        unsigned(seq!['+'], max) is None,
        s.len() > 0 && all_digits(s) ==> unsigned(s, max) == unsigned(seq!['+'] + s, max)
            && unsigned(s, max) == (if numeral_value(s) <= max {
            Some(numeral_value(s))
        } else {
            None
        }),
        unsigned(s, max) is Some ==> unsigned(s, max)->0 <= max && s.len() > 0 && forall|i: int|
            0 <= i < s.len() ==> '0' as u32 <= (#[trigger] s[i]) as u32 <= '9' as u32 || (i == 0
                && s[i] == '+'),
{
    let signed = seq!['+'] + s;
    assert(signed.skip(1) =~= s);
    assert(seq!['+'].skip(1) =~= Seq::<char>::empty());
    if s.len() > 0 && all_digits(s) {
        assert(is_digit(s[0]));
    }
    if unsigned(s, max) is Some {
        let digits = unsigned_digits(s);
        assert forall|i: int| 0 <= i < s.len() implies '0' as u32 <= (#[trigger] s[i]) as u32
            <= '9' as u32 || (i == 0 && s[i] == '+') by {
            if s[0] == '+' {
                if i > 0 {
                    assert(digits[i - 1] == s[i]);
                    assert(is_digit(digits[i - 1]));
                }
            } else {
                assert(is_digit(digits[i]));
            }
        }
    }
}

/// Space, tab and the line breaks are white space and no other ASCII is; beyond it the
/// next-line control, the no-break, ogham and ideographic spaces, the typographic
/// spaces in a row, and the separators and narrow spaces behind them.
pub proof fn law_white_space(c: char)
    ensures
        whitespace(' ') && whitespace('\t') && whitespace('\n') && whitespace('\r'),
        whitespace(c) && (c as u32) < 128 ==> c == ' ' || 9 <= c as u32 <= 13,
        33 <= c as u32 <= 126 ==> !whitespace(c),
        whitespace(c) && c as u32 >= 128 <==> {
            let code = c as u32;
            ||| code == 133 || code == 160 || code == 5760
            ||| code == 8232 || code == 8233 || code == 8239 || code == 8287 || code == 12288
            ||| 8192 <= code < 8203
        },
{
}

/// Trimming takes white space off both ends and nothing else: what is left neither
/// begins nor ends with any, and is empty exactly for blank text.
pub proof fn law_trimming(s: Seq<char>)
    ensures
        ({
            let t = trimmed(s);
            let a = leading(s) as int;
            &&& 0 <= a && a + t.len() <= s.len()
            &&& s.subrange(a, a + t.len()) == t
            &&& blank(s.take(a))
            &&& blank(s.skip(a + t.len()))
            &&& t.len() > 0 ==> !whitespace(t[0]) && !whitespace(t.last())
            &&& t.len() == 0 <==> blank(s)
        }),
{
    let t = trimmed(s);
    let a = leading(s) as int;
    let rest = s.skip(a);
    lemma_leading(s);
    lemma_trailing(rest);
    lemma_ends(s);
    lemma_ends(rest);
    assert(s.subrange(a, a + t.len()) =~= t);
    assert(s.skip(a + t.len()) =~= rest.skip(rest.len() - trailing(rest)));
    if t.len() > 0 {
        assert(t.last() == rest[t.len() - 1]);
        assert(t[0] == s[a]);
        assert(!blank(s)) by {
            assert(!whitespace(s[a]));
        }
    } else {
        assert forall|i: int| 0 <= i < s.len() implies whitespace(#[trigger] s[i]) by {
            if i < a {
                assert(s.take(a)[i] == s[i]);
            } else {
                assert(s.skip(a + t.len())[i - a] == s[i]);
            }
        }
    }
}

proof fn lemma_leading(s: Seq<char>)
    ensures
        leading(s) <= s.len(),
        blank(s.take(leading(s) as int)),
        leading(s) < s.len() ==> !whitespace(s[leading(s) as int]),
    decreases s.len(),
{
    if s.len() > 0 && whitespace(s[0]) {
        let t = s.skip(1);
        lemma_leading(t);
        assert forall|i: int| 0 <= i < leading(s) implies whitespace(
            #[trigger] s.take(leading(s) as int)[i],
        ) by {
            if i > 0 {
                assert(t.take(leading(t) as int)[i - 1] == s[i]);
            }
        }
    }
}

proof fn lemma_trailing(s: Seq<char>)
    ensures
        trailing(s) <= s.len(),
        blank(s.skip(s.len() - trailing(s))),
        trailing(s) < s.len() ==> !whitespace(s[s.len() - trailing(s) - 1]),
    decreases s.len(),
{
    if s.len() > 0 && whitespace(s.last()) {
        let t = s.drop_last();
        lemma_trailing(t);
        let k = s.len() - trailing(s);
        assert forall|i: int| 0 <= i < s.len() - k implies whitespace(#[trigger] s.skip(k)[i]) by {
            if k + i < s.len() - 1 {
                assert(t.skip(k)[i] == s[k + i]);
            }
        }
    }
}

/// Lower-casing moves the letters A to Z and no others, keeps the length, and does
/// nothing a second time.
pub proof fn law_lower_case(s: Seq<char>, c: char)
    ensures
        lower('A') == 'a' && lower('Z') == 'z',
        'A' <= c <= 'Z' ==> lower(c) as u32 == c as u32 + ('a' as u32 - 'A' as u32),
        !('A' <= c <= 'Z') ==> lower(c) == c,
        lowered(s).len() == s.len(),
        forall|i: int| 0 <= i < s.len() ==> #[trigger] lowered(s)[i] == lower(s[i]),
        lowered(lowered(s)) == lowered(s),
{
    assert(lowered(lowered(s)) =~= lowered(s));
}

/// Drawable text is the text itself where it is ASCII, with a question mark for each
/// other character; what is too long keeps its beginning and ends in three dots.
pub proof fn law_fitting(s: Seq<char>, columns: nat, i: int)
    ensures
        s.len() <= columns ==> fitted(s, columns).len() == s.len(),
        s.len() > columns >= 3 ==> fitted(s, columns).len() == columns && fitted(s, columns).skip(
            columns - 3,
        ) == "..."@,
        s.len() > columns && columns < 3 ==> fitted(s, columns) == "..."@,
        0 <= i < s.len() && (s.len() <= columns || i < columns - 3) ==> fitted(s, columns)[i] == (
        if s[i] as u32 <= 127 {
            s[i]
        } else {
            '?'
        }),
{
    reveal_strlit("...");
    if s.len() > columns {
        if columns >= 3 {
            assert(fitted(s, columns).skip(columns - 3) =~= "..."@);
        } else {
            assert(fitted(s, columns) =~= "..."@);
        }
    }
}

/// Wrapping loses nothing within five lines: the character at place `i` stands in
/// line `i / columns`, at `i % columns`; no line is longer than the columns, none is
/// empty, and there are as many as it takes, five at most.
pub proof fn law_wrapping(s: Seq<char>, columns: nat, i: int)
    requires
        columns >= 1,
        0 <= i < s.len(),
        i < 5 * columns,
    ensures
        0 <= i / columns as int,
        i / (columns as int) < line_count(s.len(), columns),
        0 < line(s, columns, i / columns as int).len() <= columns,
        i % (columns as int) < line(s, columns, i / columns as int).len(),
        line(s, columns, i / columns as int)[i % columns as int] == s[i],
        line_count(s.len(), columns) <= 5,
        (line_count(s.len(), columns) - 1) * columns < s.len(),
        line_count(0, columns) == 0,
{
    let c = columns as int;
    let n = s.len() as int;
    let k = i / c;
    let m = i % c;
    vstd::arithmetic::div_mod::lemma_fundamental_div_mod(i, c);
    assert(0 <= m < c) by (nonlinear_arith)
        requires
            m == i % c,
            c >= 1,
    ;
    assert(c * k == k * c) by (nonlinear_arith);
    assert((k + 1) * c == k * c + c) by (nonlinear_arith);
    assert(0 <= k < 5) by (nonlinear_arith)
        requires
            i == c * k + m,
            0 <= m < c,
            0 <= i < 5 * c,
    ;
    let full = (n + c - 1) / c;
    vstd::arithmetic::div_mod::lemma_fundamental_div_mod(n + c - 1, c);
    let r = (n + c - 1) % c;
    assert(0 <= r < c) by (nonlinear_arith)
        requires
            r == (n + c - 1) % c,
            c >= 1,
    ;
    assert(k < full) by (nonlinear_arith)
        requires
            n + c - 1 == c * full + r,
            0 <= r < c,
            i == c * k + m,
            0 <= m < c,
            i < n,
    ;
    assert((full - 1) * c < n) by (nonlinear_arith)
        requires
            n + c - 1 == c * full + r,
            0 <= r < c,
    ;
    let lines = line_count(s.len(), columns) as int;
    assert((lines - 1) * c <= (full - 1) * c) by (nonlinear_arith)
        requires
            lines <= full,
            c >= 1,
    ;
    assert((c - 1) / c == 0) by (nonlinear_arith)
        requires
            c >= 1,
    ;
    assert(0 <= k * c) by (nonlinear_arith)
        requires
            0 <= k,
            c >= 1,
    ;
}

/// The last place of a character: it stands there and nowhere behind.
pub proof fn law_last_place(s: Seq<char>, c: char)
    ensures
        last_of(s, c) >= 0 ==> s[last_of(s, c)] == c,
        forall|i: int| last_of(s, c) < i < s.len() ==> #[trigger] s[i] != c,
        last_of(s, c) < s.len(),
        -1 <= last_of(s, c),
    decreases s.len(),
{
    if s.len() > 0 && s.last() != c {
        law_last_place(s.drop_last(), c);
        assert forall|i: int| last_of(s, c) < i < s.len() implies #[trigger] s[i] != c by {
            if i < s.len() - 1 {
                assert(s.drop_last()[i] == s[i]);
            }
        }
    }
}

proof fn lemma_last_is(s: Seq<char>, c: char, k: int)
    requires
        -1 <= k < s.len(),
        k >= 0 ==> s[k] == c,
        forall|i: int| k < i < s.len() ==> s[i] != c,
    ensures
        last_of(s, c) == k,
{
    law_last_place(s, c);
}

/// A file's name is what stands behind the last slash, whatever folder it is in; a
/// slash or a dot of its own behind it makes no difference, and a path that ends in
/// two dots names no file.
pub proof fn law_file_names(folder: Seq<char>, name: Seq<char>)
    requires
        name.len() > 0,
        forall|i: int| 0 <= i < name.len() ==> name[i] != '/',
    ensures
        ({
            let path = folder.push('/') + name;
            let plain = name != seq!['.'] && name != seq!['.', '.'];
            &&& plain ==> file_name(path) == Some(name) && file_name(name) == Some(name)
            &&& name == seq!['.', '.'] ==> file_name(path) is None && file_name(name) is None
            &&& name == seq!['.'] ==> file_name(path) == file_name(folder) && file_name(name)
                is None
            &&& file_name(path.push('/')) == file_name(path)
        }),
{
    let path = folder.push('/') + name;
    assert(path[folder.len() as int] == '/');
    assert forall|i: int| folder.len() < i < path.len() implies path[i] != '/' by {
        assert(path[i] == name[i - folder.len() - 1]);
    }
    lemma_last_is(path, '/', folder.len() as int);
    assert(path.skip((folder.len() + 1) as int) =~= name);
    assert(path.take(folder.len() as int) =~= folder);
    lemma_last_is(name, '/', -1);
    assert(name.skip(0) =~= name);
    let longer = path.push('/');
    lemma_last_is(longer, '/', path.len() as int);
    assert(longer.skip((path.len() + 1) as int) =~= Seq::<char>::empty());
    assert(longer.take(path.len() as int) =~= path);
    if name == seq!['.', '.'] {
        assert(name != seq!['.']) by {
            assert(name.len() == 2);
        }
    }
}

/// Nothing in a file name is a slash, and no name is empty, one dot or two.
pub proof fn law_names_are_plain(path: Seq<char>)
    ensures
        file_name(path) matches Some(name) ==> name.len() > 0 && name != seq!['.'] && name
            != seq!['.', '.'] && forall|i: int| 0 <= i < name.len() ==> name[i] != '/',
    decreases path.len(),
{
    let slash = last_of(path, '/');
    law_last_place(path, '/');
    let name = path.skip(slash + 1);
    if name.len() == 0 || name == seq!['.'] {
        if slash >= 0 {
            law_names_are_plain(path.take(slash));
        }
    } else {
        assert forall|i: int| 0 <= i < name.len() implies name[i] != '/' by {
            assert(name[i] == path[slash + 1 + i]);
        }
    }
}

/// Stem and extension put together with a dot give the name back; the extension has
/// no dot, the stem is not empty, and a name has no extension only where no dot
/// stands behind its first character.
pub proof fn law_stems_and_extensions(name: Seq<char>)
    ensures
        extension(name) matches Some(e) ==> {
            &&& stem(name).push('.') + e == name
            &&& stem(name).len() > 0
            &&& forall|i: int| 0 <= i < e.len() ==> e[i] != '.'
        },
        extension(name) is None ==> stem(name) == name,
        extension(name) is None <==> forall|i: int| 0 < i < name.len() ==> #[trigger] name[i] != '.',
{
    let dot = last_of(name, '.');
    law_last_place(name, '.');
    if dot > 0 {
        let e = name.skip(dot + 1);
        assert(name.take(dot).push('.') + e =~= name);
        assert forall|i: int| 0 <= i < e.len() implies e[i] != '.' by {
            assert(e[i] == name[dot + 1 + i]);
        }
        assert(name[dot] == '.');
    }
}

/// The stem and extension of a path are those of the file that it names.
pub proof fn law_path_parts(path: Seq<char>)
    ensures
        file_name(path) is None <==> file_stem(path) is None,
        file_name(path) is None ==> file_extension(path) is None,
        file_name(path) matches Some(name) ==> file_stem(path) == Some(stem(name))
            && file_extension(path) == extension(name),
{
}

} // verus!
