//! Text primitives: access to the characters of a string, decimal rendering
//! of integers and the grammar of floating-point literals.

use vstd::prelude::*;

verus! {

/// `String::push`. Taken on trust: it appends exactly the given character.
pub assume_specification[ std::string::String::push ](s: &mut std::string::String, c: char)
    ensures
        final(s)@ == old(s)@.push(c),
;

/// `==` on `str`. Taken on trust: it holds exactly when the two texts have
/// the same characters.
pub assume_specification[ <str as PartialEq>::eq ](a: &str, b: &str) -> (r: bool)
    ensures
        r == (a@ == b@),
;

/// The characters of `s`, in order, for access by position.
pub fn chars_of(s: &str) -> (v: Vec<char>)
    ensures
        v@ == s@,
{
    let mut v: Vec<char> = Vec::new();
    for c in it: s.chars()
        invariant
            it.seq() == s@,
            v@ == it.seq().take(it.index() as int),
    {
        v.push(c);
    }
    v
}

/// The text made of the characters `v[from..to]`.
pub fn text_of(v: &Vec<char>, from: usize, to: usize) -> (s: String)
    requires
        from <= to <= v.len(),
    ensures
        s@ == v@.subrange(from as int, to as int),
{
    let mut s = String::new();
    let mut i: usize = from;
    while i < to
        invariant
            from <= i <= to <= v.len(),
            s@ == v@.subrange(from as int, i as int),
        decreases to - i,
    {
        s.push(v[i]);
        i += 1;
        assert(v@.subrange(from as int, i as int) == v@.subrange(from as int, i - 1).push(
            v@[i - 1],
        ));
    }
    s
}

pub open spec fn is_digit(c: char) -> bool {
    '0' <= c && c <= '9'
}

pub open spec fn all_digits(s: Seq<char>) -> bool {
    forall|i: int| 0 <= i < s.len() ==> is_digit(#[trigger] s[i])
}

/// The decimal digit that stands for `d`.
pub open spec fn digit_char(d: int) -> char
    recommends
        0 <= d < 10,
{
    seq!['0', '1', '2', '3', '4', '5', '6', '7', '8', '9'][d]
}

/// The decimal digits of `n`, most significant first, without leading zeros.
pub open spec fn decimal_digits(n: nat) -> Seq<char>
    decreases n,
{
    if n < 10 {
        seq![digit_char(n as int)]
    } else {
        decimal_digits(n / 10).push(digit_char((n % 10) as int))
    }
}

/// The decimal notation of `n`: a minus sign where it is negative, then its
/// digits.
pub open spec fn decimal(n: int) -> Seq<char> {
    if n < 0 {
        seq!['-'] + decimal_digits((-n) as nat)
    } else {
        decimal_digits(n as nat)
    }
}

fn digit_of(d: u64) -> (c: char)
    requires
        d < 10,
    ensures
        c == digit_char(d as int),
{
    if d == 0 {
        '0'
    } else if d == 1 {
        '1'
    } else if d == 2 {
        '2'
    } else if d == 3 {
        '3'
    } else if d == 4 {
        '4'
    } else if d == 5 {
        '5'
    } else if d == 6 {
        '6'
    } else if d == 7 {
        '7'
    } else if d == 8 {
        '8'
    } else {
        '9'
    }
}

/// Appends the decimal digits of `n` to `out`.
fn push_digits(out: &mut String, n: u64)
    ensures
        final(out)@ == old(out)@ + decimal_digits(n as nat),
{
    // The digits come out least significant first; `rest`, still to be
    // rendered, precedes them all.
    let mut low: Vec<char> = Vec::new();
    let mut rest: u64 = n;
    while rest >= 10
        invariant
            decimal_digits(n as nat) == decimal_digits(rest as nat) + low@.reverse(),
        decreases rest,
    {
        let d = digit_of(rest % 10);
        proof {
            let prev = low@;
            assert(prev.push(d).reverse() == seq![d] + prev.reverse());
            assert(decimal_digits(rest as nat) == decimal_digits((rest / 10) as nat).push(d));
            assert(decimal_digits((rest / 10) as nat).push(d) + prev.reverse() == decimal_digits(
                (rest / 10) as nat,
            ) + (seq![d] + prev.reverse()));
        }
        low.push(d);
        rest = rest / 10;
    }
    let first = digit_of(rest);
    out.push(first);
    let mut i: usize = low.len();
    while i > 0
        invariant
            i <= low.len(),
            out@ == old(out)@ + seq![first] + low@.reverse().take(low.len() - i),
        decreases i,
    {
        i -= 1;
        out.push(low[i]);
        proof {
            let r = low@.reverse();
            assert(r.take(low.len() - i) == r.take(low.len() - i - 1).push(low@[i as int]));
        }
    }
    proof {
        assert(low@.reverse().take(low.len() as int) == low@.reverse());
        assert(decimal_digits(rest as nat) == seq![first]);
    }
}

/// Appends the decimal notation of `n` to `out`.
pub fn push_decimal(out: &mut String, n: i64)
    ensures
        final(out)@ == old(out)@ + decimal(n as int),
{
    if n < 0 {
        out.push('-');
        let magnitude: u64 = if n == i64::MIN {
            9223372036854775808u64
        } else {
            (-n) as u64
        };
        push_digits(out, magnitude);
        assert(old(out)@.push('-') + decimal_digits(magnitude as nat) == old(out)@ + (seq!['-']
            + decimal_digits(magnitude as nat)));
    } else {
        push_digits(out, n as u64);
    }
}

/// `s` without its leading `+` or `-`, where it has one.
pub open spec fn without_sign(s: Seq<char>) -> Seq<char> {
    if s.len() > 0 && (s[0] == '+' || s[0] == '-') {
        s.skip(1)
    } else {
        s
    }
}

/// `s` spells a word letter by letter, each letter in either case.
pub open spec fn spells(s: Seq<char>, lower: Seq<char>, upper: Seq<char>) -> bool {
    &&& s.len() == lower.len()
    &&& forall|i: int| 0 <= i < s.len() ==> #[trigger] s[i] == lower[i] || s[i] == upper[i]
}

/// `Digit+ | Digit+ '.' Digit* | Digit* '.' Digit+`: digits around at most
/// one point, with at least one digit.
pub open spec fn is_mantissa(s: Seq<char>) -> bool {
    ||| s.len() > 0 && all_digits(s)
    ||| exists|k: int|
        0 <= k < s.len() && s.len() > 1 && s[k] == '.' && all_digits(#[trigger] s.take(k))
            && all_digits(s.skip(k + 1))
}

/// `('e' | 'E') Sign? Digit+`.
pub open spec fn is_exponent(s: Seq<char>) -> bool {
    &&& s.len() > 0
    &&& s[0] == 'e' || s[0] == 'E'
    &&& without_sign(s.skip(1)).len() > 0
    &&& all_digits(without_sign(s.skip(1)))
}

/// A mantissa, then an exponent or nothing.
pub open spec fn is_number(s: Seq<char>) -> bool {
    ||| is_mantissa(s)
    ||| exists|k: int|
        0 <= k <= s.len() && is_mantissa(#[trigger] s.take(k)) && is_exponent(s.skip(k))
}

/// The texts that std's `FromStr` for binary floating point accepts: after an
/// optional sign, `inf`, `infinity` or `nan` in either case, or a number in
/// decimal notation with an optional point and exponent. Blanks are not
/// accepted anywhere, and no magnitude is too large or too small.
pub open spec fn is_float_literal(s: Seq<char>) -> bool {
    let body = without_sign(s);
    ||| spells(body, seq!['i', 'n', 'f'], seq!['I', 'N', 'F'])
    ||| spells(
        body,
        seq!['i', 'n', 'f', 'i', 'n', 'i', 't', 'y'],
        seq!['I', 'N', 'F', 'I', 'N', 'I', 'T', 'Y'],
    )
    ||| spells(body, seq!['n', 'a', 'n'], seq!['N', 'A', 'N'])
    ||| is_number(body)
}

/// The characters of `v` from position `from` on.
fn tail(v: &Vec<char>, from: usize) -> (r: Vec<char>)
    requires
        from <= v.len(),
    ensures
        r@ == v@.skip(from as int),
{
    let mut r: Vec<char> = Vec::new();
    let mut i: usize = from;
    while i < v.len()
        invariant
            from <= i <= v.len(),
            r@ == v@.subrange(from as int, i as int),
        decreases v.len() - i,
    {
        r.push(v[i]);
        i += 1;
        assert(v@.subrange(from as int, i as int) == v@.subrange(from as int, i - 1).push(
            v@[i - 1],
        ));
    }
    r
}

fn unsigned(v: &Vec<char>) -> (r: Vec<char>)
    ensures
        r@ == without_sign(v@),
{
    if v.len() > 0 && (v[0] == '+' || v[0] == '-') {
        tail(v, 1)
    } else {
        let r = tail(v, 0);
        assert(v@.skip(0) == v@);
        r
    }
}

fn digit_at(v: &Vec<char>, i: usize) -> (r: bool)
    ensures
        r == (i < v.len() && is_digit(v@[i as int])),
{
    i < v.len() && v[i] >= '0' && v[i] <= '9'
}

/// The first position at or after `from` that holds no digit.
fn skip_digits(v: &Vec<char>, from: usize) -> (to: usize)
    requires
        from <= v.len(),
    ensures
        from <= to <= v.len(),
        all_digits(v@.subrange(from as int, to as int)),
        to < v.len() ==> !is_digit(v@[to as int]),
{
    let mut i: usize = from;
    while digit_at(v, i)
        invariant
            from <= i <= v.len(),
            all_digits(v@.subrange(from as int, i as int)),
        decreases v.len() - i,
    {
        i += 1;
        assert forall|k: int| 0 <= k < i - from implies is_digit(
            #[trigger] v@.subrange(from as int, i as int)[k],
        ) by {
            if k < i - from - 1 {
                assert(v@.subrange(from as int, i - 1)[k] == v@[from + k]);
            }
        }
    }
    i
}

fn spells_word(v: &Vec<char>, lower: &Vec<char>, upper: &Vec<char>) -> (r: bool)
    requires
        lower.len() == upper.len(),
    ensures
        r == spells(v@, lower@, upper@),
{
    if v.len() != lower.len() {
        return false;
    }
    let mut i: usize = 0;
    while i < v.len()
        invariant
            v.len() == lower.len(),
            lower.len() == upper.len(),
            i <= v.len(),
            forall|k: int| 0 <= k < i ==> #[trigger] v@[k] == lower@[k] || v@[k] == upper@[k],
        decreases v.len() - i,
    {
        if !(v[i] == lower[i] || v[i] == upper[i]) {
            return false;
        }
        i += 1;
    }
    true
}

fn exponent(v: &Vec<char>) -> (r: bool)
    ensures
        r == is_exponent(v@),
{
    if v.len() == 0 || !(v[0] == 'e' || v[0] == 'E') {
        return false;
    }
    let digits = unsigned(&tail(v, 1));
    let end = skip_digits(&digits, 0);
    proof {
        if end == digits.len() {
            assert(digits@.subrange(0, end as int) == digits@);
        }
    }
    digits.len() > 0 && end == digits.len()
}

fn number(v: &Vec<char>) -> (r: bool)
    ensures
        r == is_number(v@),
{
    let n = v.len();
    let whole_end = skip_digits(v, 0);
    let pointed = whole_end < n && v[whole_end] == '.';
    let mantissa_end = if pointed {
        skip_digits(v, whole_end + 1)
    } else {
        whole_end
    };
    proof {
        lemma_scanned_mantissa(v@, whole_end as int, mantissa_end as int);
        assert(v@.take(n as int) == v@);
        if is_number(v@) && !is_mantissa(v@) {
            let k = choose|k: int|
                0 <= k <= v@.len() && is_mantissa(#[trigger] v@.take(k)) && is_exponent(
                    v@.skip(k),
                );
            assert(v@.skip(k)[0] == v@[k]);
        }
    }
    let least: usize = if pointed {
        1
    } else {
        0
    };
    if mantissa_end <= least {
        return false;
    }
    if mantissa_end == n {
        return true;
    }
    exponent(&tail(v, mantissa_end))
}

/// Whether `name` is a floating-point literal.
pub fn parses_as_float(name: &str) -> (r: bool)
    ensures
        r == is_float_literal(name@),
{
    let body = unsigned(&chars_of(name));
    spells_word(&body, &vec!['i', 'n', 'f'], &vec!['I', 'N', 'F']) || spells_word(
        &body,
        &vec!['i', 'n', 'f', 'i', 'n', 'i', 't', 'y'],
        &vec!['I', 'N', 'F', 'I', 'N', 'I', 'T', 'Y'],
    ) || spells_word(&body, &vec!['n', 'a', 'n'], &vec!['N', 'A', 'N']) || number(&body)
}

/// What a scan for digits, one point and digits again says of the text it
/// ran over: whether it found a mantissa, and that no other prefix of the
/// text is a mantissa that an exponent or the end of the text follows.
proof fn lemma_scanned_mantissa(body: Seq<char>, w: int, m: int)
    requires
        0 <= w <= m <= body.len(),
        all_digits(body.subrange(0, w)),
        w < body.len() ==> !is_digit(body[w]),
        m > w ==> body[w] == '.' && all_digits(body.subrange(w + 1, m)),
        m == w ==> w == body.len() || body[w] != '.',
        m < body.len() ==> !is_digit(body[m]),
    ensures
        is_mantissa(body.take(m)) <==> m > (if m > w {
            1int
        } else {
            0int
        }),
        forall|k: int|
            0 <= k <= body.len() && is_mantissa(#[trigger] body.take(k)) ==> k == m || (k
                < body.len() && body[k] != 'e' && body[k] != 'E'),
{
    let t = body.take(m);
    if m > w {
        assert(t[w] == '.');
        assert(t.take(w) == body.subrange(0, w));
        assert(t.skip(w + 1) == body.subrange(w + 1, m));
        if t.len() > 0 && all_digits(t) {
            assert(is_digit(t[w]));
        }
    } else {
        assert(t == body.subrange(0, w));
        if is_mantissa(t) && !(t.len() > 0 && all_digits(t)) {
            let k = choose|k: int|
                0 <= k < t.len() && t.len() > 1 && t[k] == '.' && all_digits(#[trigger] t.take(k))
                    && all_digits(t.skip(k + 1));
            assert(is_digit(t[k]));
        }
    }
    assert forall|k: int| 0 <= k <= body.len() && is_mantissa(#[trigger] body.take(k)) implies k
        == m || (k < body.len() && body[k] != 'e' && body[k] != 'E') by {
        lemma_mantissa_end(body, w, m, k);
    }
}

/// A prefix of `body` that is a mantissa ends where the scan ended, or
/// before a character that opens no exponent.
proof fn lemma_mantissa_end(body: Seq<char>, w: int, m: int, k: int)
    requires
        0 <= w <= m <= body.len(),
        all_digits(body.subrange(0, w)),
        w < body.len() ==> !is_digit(body[w]),
        m > w ==> body[w] == '.' && all_digits(body.subrange(w + 1, m)),
        m == w ==> w == body.len() || body[w] != '.',
        m < body.len() ==> !is_digit(body[m]),
        0 <= k <= body.len(),
        is_mantissa(body.take(k)),
    ensures
        k == m || (k < body.len() && body[k] != 'e' && body[k] != 'E'),
{
    let t = body.take(k);
    if t.len() > 0 && all_digits(t) {
        if k > w {
            assert(is_digit(t[w]));
        }
        if k < w {
            assert(is_digit(body.subrange(0, w)[k]));
        }
    } else {
        let d = choose|d: int|
            0 <= d < t.len() && t.len() > 1 && t[d] == '.' && all_digits(#[trigger] t.take(d))
                && all_digits(t.skip(d + 1));
        if d > w {
            assert(is_digit(t.take(d)[w]));
        }
        if d < w {
            assert(is_digit(body.subrange(0, w)[d]));
        }
        if k > m {
            assert(is_digit(t.skip(d + 1)[m - d - 1]));
        }
        if k < m {
            assert(is_digit(body.subrange(w + 1, m)[k - w - 1]));
        }
    }
}

} // verus!
