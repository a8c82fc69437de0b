//! Parsing of conversion commands: `<amount> <source phrase> to <target phrase>`.
use vstd::prelude::*;
use crate::currency::Quantity;
use crate::text::{eq_fold, eq_ignore_case, is_blank, is_space};

verus! {

/// The whitespace-separated words of `s`, defined character by character
/// from the end: a space ends a word, and a non-space character either
/// extends the word before it or starts a new one.
pub open spec fn words(s: Seq<char>) -> Seq<Seq<char>>
    decreases s.len(),
{
    if s.len() == 0 {
        seq![]
    } else {
        let w = words(s.drop_last());
        let c = s.last();
        if is_space(c) {
            w
        } else if s.len() >= 2 && !is_space(s[s.len() - 2]) {
            w.update(w.len() - 1, w.last().push(c))
        } else {
            w.push(seq![c])
        }
    }
}

pub open spec fn texts(v: Seq<String>) -> Seq<Seq<char>> {
    v.map_values(|t: String| t@)
}

/// Splits `line` into its words, as `str::split_whitespace` does.
pub fn split_words(line: &str) -> (r: Vec<String>)
    ensures
        texts(r@) == words(line@),
{
    let n = line.unicode_len();
    let mut out: Vec<String> = Vec::new();
    let mut start: usize = 0;
    let mut in_word = false;
    let mut i: usize = 0;
    while i < n
        invariant
            n == line@.len(),
            i <= n,
            start <= i,
            in_word ==> start < i,
            in_word == (i > 0 && !is_space(line@[i - 1])),
            in_word ==> forall|k: int| start <= k < i ==> !is_space(#[trigger] line@[k]),
            in_word ==> (start == 0 || is_space(line@[start - 1])),
            words(line@.take(i as int)) == if in_word {
                texts(out@).push(line@.subrange(start as int, i as int))
            } else {
                texts(out@)
            },
        decreases n - i,
    {
        let c = line.get_char(i);
        let ghost prev = line@.take(i as int);
        let ghost next = line@.take(i + 1);
        assert(next.drop_last() =~= prev);
        if is_blank(c) {
            if in_word {
                let w = line.substring_char(start, i).to_owned();
                let ghost before = texts(out@);
                out.push(w);
                assert(texts(out@) =~= before.push(line@.subrange(start as int, i as int)));
            }
            in_word = false;
        } else {
            if !in_word {
                start = i;
                in_word = true;
                assert(line@.subrange(start as int, i + 1) =~= seq![c]);
            } else {
                assert(line@.subrange(start as int, i + 1) =~= line@.subrange(
                    start as int,
                    i as int,
                ).push(c));
            }
        }
        i = i + 1;
    }
    assert(line@.take(n as int) =~= line@);
    if in_word {
        let w = line.substring_char(start, n).to_owned();
        let ghost before = texts(out@);
        out.push(w);
        assert(texts(out@) =~= before.push(line@.subrange(start as int, n as int)));
    }
    out
}

/// The most digits an amount may have: any 38-digit number fits in an
/// `i128`, and so does ten to the 38th power.
pub const MAX_DIGITS: usize = 38;

pub open spec fn is_digit(c: char) -> bool {
    48 <= c as u32 && c as u32 <= 57
}

pub open spec fn all_digits(s: Seq<char>) -> bool {
    forall|i: int| 0 <= i < s.len() ==> is_digit(#[trigger] s[i])
}

/// The number that the decimal digits `s` spell.
pub open spec fn digits_val(s: Seq<char>) -> int
    decreases s.len(),
{
    if s.len() == 0 {
        0
    } else {
        10 * digits_val(s.drop_last()) + (s.last() as u32 - 48)
    }
}

pub open spec fn pow10(n: nat) -> int
    decreases n,
{
    if n == 0 {
        1
    } else {
        10 * pow10((n - 1) as nat)
    }
}

/// `b` is digits with one `.` at `d` and at least one digit in all.
pub open spec fn dot_at(b: Seq<char>, d: int) -> bool {
    &&& 0 <= d < b.len()
    &&& b[d] == '.'
    &&& b.len() >= 2
    &&& all_digits(b.take(d))
    &&& all_digits(b.skip(d + 1))
}

/// The digits of an unsigned decimal number `b`, with the `.` taken out,
/// and how many of them follow the `.`.
pub open spec fn number_parts(b: Seq<char>) -> Option<(Seq<char>, nat)> {
    if b.len() > 0 && all_digits(b) {
        Some((b, 0))
    } else if exists|d: int| dot_at(b, d) {
        let d = choose|d: int| dot_at(b, d);
        Some((b.take(d) + b.skip(d + 1), (b.len() - d - 1) as nat))
    } else {
        None
    }
}

pub open spec fn has_sign(t: Seq<char>) -> bool {
    t.len() > 0 && (t[0] == '-' || t[0] == '+')
}

/// The exact value of the decimal number `t`: an optional sign, digits,
/// and optionally a `.` followed by more digits, with at least one digit
/// and at most `MAX_DIGITS` in all.
pub open spec fn amount_of(t: Seq<char>) -> Option<Quantity> {
    let b = if has_sign(t) {
        t.skip(1)
    } else {
        t
    };
    match number_parts(b) {
        Some((m, f)) => if m.len() <= MAX_DIGITS {
            let v = digits_val(m);
            Some(Quantity { num: (if t[0] == '-' { -v } else { v }) as i128, den: pow10(f) as i128 })
        } else {
            None
        },
        None => None,
    }
}

proof fn lemma_pow10_grows(a: nat, b: nat)
    requires
        a <= b,
    ensures
        0 < pow10(a) <= pow10(b),
    decreases b,
{
    if a < b {
        lemma_pow10_grows(a, (b - 1) as nat);
    } else if a > 0 {
        lemma_pow10_grows((a - 1) as nat, (a - 1) as nat);
    }
}

#[verifier::spinoff_prover]
proof fn lemma_pow10_fits(n: nat)
    requires
        n <= MAX_DIGITS,
    ensures
        0 < pow10(n) <= i128::MAX,
{
    lemma_pow10_grows(n, 38);
    reveal_with_fuel(pow10, 39);
    assert(pow10(38) == 100000000000000000000000000000000000000int);
}

proof fn lemma_digits_below(s: Seq<char>)
    requires
        all_digits(s),
    ensures
        0 <= digits_val(s) < pow10(s.len()),
    decreases s.len(),
{
    if s.len() > 0 {
        let p = s.drop_last();
        assert(all_digits(p)) by {
            assert forall|i: int| 0 <= i < p.len() implies is_digit(#[trigger] p[i]) by {
                assert(p[i] == s[i]);
            }
        }
        lemma_digits_below(p);
        assert(is_digit(s[s.len() - 1]));
    }
}

#[verifier::rlimit(40)]
#[verifier::spinoff_prover]
/// Reads a decimal amount such as `20`, `-3.5` or `.25` exactly.
pub fn parse_amount(token: &str) -> (r: Option<Quantity>)
    ensures
        r == amount_of(token@),
        r matches Some(q) ==> q.wf(),
{
    let t = Ghost(token@);
    let n = token.unicode_len();
    if n == 0 {
        return None;
    }
    let first = token.get_char(0);
    let start: usize = if first == '-' || first == '+' { 1 } else { 0 };
    let ghost b = if has_sign(t@) { t@.skip(1) } else { t@ };
    assert(b =~= t@.skip(start as int));
    // The digits before the first character that is not one.
    let mut d: usize = start;
    while d < n && is_ascii_digit(token.get_char(d))
        invariant
            start <= d <= n,
            n == t@.len(),
            t@ == token@,
            forall|k: int| start <= k < d ==> is_digit(#[trigger] t@[k]),
        decreases n - d,
    {
        d = d + 1;
    }
    let ghost dd = d - start;
    assert(all_digits(b.take(dd))) by {
        assert forall|k: int| 0 <= k < dd implies is_digit(#[trigger] b.take(dd)[k]) by {
            assert(b.take(dd)[k] == t@[start + k]);
        }
    }
    let has_dot = d < n;
    if has_dot {
        if token.get_char(d) != '.' || n - start < 2 {
            proof {
                assert(!all_digits(b) || b.len() == 0) by {
                    if b.len() > 0 && all_digits(b) {
                        assert(is_digit(b[dd]));
                    }
                }
                assert forall|e: int| !dot_at(b, e) by {
                    if dot_at(b, e) {
                        if e < dd {
                            assert(is_digit(b.take(dd)[e]));
                        } else if e > dd {
                            assert(is_digit(b.take(e)[dd]));
                        }
                    }
                }
            }
            return None;
        }
        let mut j: usize = d + 1;
        while j < n
            invariant
                d < j <= n,
                n == t@.len(),
                t@ == token@,
                b == t@.skip(start as int),
                dd == d - start,
                start <= d,
                all_digits(b.take(dd)),
                t@[d as int] == '.',
                b == if has_sign(token@) {
                    token@.skip(1)
                } else {
                    token@
                },
                forall|k: int| d < k < j ==> is_digit(#[trigger] t@[k]),
            decreases n - j,
        {
            if !is_ascii_digit(token.get_char(j)) {
                proof {
                    assert(!is_digit(b[j - start]));
                    assert(!all_digits(b));
                    assert forall|e: int| !dot_at(b, e) by {
                        if dot_at(b, e) {
                            if e < dd {
                                assert(is_digit(b.take(dd)[e]));
                            } else if e > dd {
                                assert(is_digit(b.take(e)[dd]));
                            } else {
                                assert(is_digit(b.skip(e + 1)[j - start - e - 1]));
                            }
                        }
                    }
                }
                return None;
            }
            j = j + 1;
        }
        proof {
            assert(dot_at(b, dd as int)) by {
                assert forall|k: int| 0 <= k < b.skip(dd + 1).len() implies is_digit(
                    #[trigger] b.skip(dd + 1)[k],
                ) by {
                    assert(b.skip(dd + 1)[k] == t@[d + 1 + k]);
                }
            }
            assert(!all_digits(b)) by {
                assert(!is_digit(b[dd as int]));
            }
            let e = choose|e: int| dot_at(b, e);
            if e < dd {
                assert(is_digit(b.take(dd)[e]));
            } else if e > dd {
                assert(is_digit(b.take(e)[dd]));
            }
        }
    } else {
        proof {
            assert(b.take(dd) =~= b);
        }
        if n == start {
            proof {
                assert forall|e: int| !dot_at(b, e) by {
                }
            }
            return None;
        }
    }
    // The digits, with the dot (if any) skipped, and how many follow it.
    let ghost m = if has_dot { b.take(dd) + b.skip(dd + 1) } else { b };
    let count: usize = if has_dot { n - start - 1 } else { n - start };
    let frac: usize = if has_dot { n - d - 1 } else { 0 };
    assert(m.len() == count);
    assert(all_digits(m)) by {
        assert forall|k: int| 0 <= k < m.len() implies is_digit(#[trigger] m[k]) by {
            if has_dot {
                if k < dd {
                    assert(m[k] == b.take(dd)[k]);
                } else {
                    assert(m[k] == b.skip(dd + 1)[k - dd]);
                }
            }
        }
    }
    if count > MAX_DIGITS {
        return None;
    }
    let mut num: i128 = 0;
    let mut k: usize = 0;
    while k < count
        invariant
            k <= count <= MAX_DIGITS,
            all_digits(m),
            m.len() == count,
            num == digits_val(m.take(k as int)),
            n == t@.len(),
            t@ == token@,
            start <= d <= n,
            dd == d - start,
            has_dot ==> d < n && count == n - start - 1,
            !has_dot ==> count == n - start,
            forall|x: int|
                0 <= x < count ==> #[trigger] m[x] == t@[if has_dot && x >= dd {
                    start + x + 1
                } else {
                    start + x
                }],
        decreases count - k,
    {
        let pos: usize = if has_dot && k >= d - start { start + k + 1 } else { start + k };
        let c = token.get_char(pos);
        assert(c == m[k as int]);
        proof {
            assert(m.take(k + 1).drop_last() =~= m.take(k as int));
            assert(all_digits(m.take(k + 1))) by {
                assert forall|x: int| 0 <= x < k + 1 implies is_digit(#[trigger] m.take(k + 1)[x]) by {
                    assert(m.take(k + 1)[x] == m[x]);
                }
            }
            lemma_digits_below(m.take(k + 1));
            lemma_pow10_fits((k + 1) as nat);
        }
        num = 10 * num + (c as u32 - 48) as i128;
        k = k + 1;
    }
    assert(m.take(count as int) =~= m);
    proof {
        lemma_digits_below(m);
        lemma_pow10_fits(count as nat);
    }
    let mut den: i128 = 1;
    let mut f: usize = 0;
    while f < frac
        invariant
            f <= frac <= count <= MAX_DIGITS,
            den == pow10(f as nat),
        decreases frac - f,
    {
        proof {
            lemma_pow10_fits((f + 1) as nat);
        }
        den = den * 10;
        f = f + 1;
    }
    proof {
        lemma_pow10_fits(frac as nat);
    }
    if first == '-' {
        Some(Quantity { num: -num, den })
    } else {
        Some(Quantity { num, den })
    }
}

fn is_ascii_digit(c: char) -> (r: bool)
    ensures
        r == is_digit(c),
{
    let u = c as u32;
    48 <= u && u <= 57
}

/// Why a command could not be read.
#[derive(Debug, PartialEq, Eq, Structural)]
pub enum ParseError {
    /// The first word is not a decimal amount.
    InvalidAmount,
    /// Fewer than four words, or no `to` with a phrase on each side.
    MalformedCommand,
}

/// The separator word `to`, in any case.
pub open spec fn is_separator(w: Seq<char>) -> bool {
    eq_fold(w, seq!['t', 'o'])
}

/// The index of the first separator after the amount.
pub open spec fn separator_index(ws: Seq<Seq<char>>) -> Option<int> {
    if exists|k: int|
        1 <= k < ws.len() && is_separator(#[trigger] ws[k]) && forall|j: int|
            1 <= j < k ==> !is_separator(#[trigger] ws[j]) {
        Some(
            choose|k: int|
                1 <= k < ws.len() && is_separator(#[trigger] ws[k]) && forall|j: int|
                    1 <= j < k ==> !is_separator(#[trigger] ws[j]),
        )
    } else {
        None
    }
}

/// The words joined with one space between each two.
pub open spec fn join(ws: Seq<Seq<char>>) -> Seq<char>
    decreases ws.len(),
{
    if ws.len() == 0 {
        seq![]
    } else if ws.len() == 1 {
        ws[0]
    } else {
        join(ws.drop_last()) + seq![' '] + ws.last()
    }
}

/// What the command `s` asks for: the amount, the source phrase and the
/// target phrase; or why it cannot be read.
pub open spec fn command_of(s: Seq<char>) -> Result<(Quantity, Seq<char>, Seq<char>), ParseError> {
    let w = words(s);
    if w.len() < 4 {
        Err(ParseError::MalformedCommand)
    } else {
        match amount_of(w[0]) {
            None => Err(ParseError::InvalidAmount),
            Some(q) => match separator_index(w) {
                Some(k) => if 1 < k < w.len() - 1 {
                    Ok((q, join(w.subrange(1, k)), join(w.subrange(k + 1, w.len() as int))))
                } else {
                    Err(ParseError::MalformedCommand)
                },
                None => Err(ParseError::MalformedCommand),
            },
        }
    }
}

/// Joins the words `from..to` of `ws` with single spaces.
pub fn join_words(ws: &Vec<String>, from: usize, to: usize) -> (r: String)
    requires
        from <= to <= ws@.len(),
    ensures
        r@ == join(texts(ws@).subrange(from as int, to as int)),
{
    let mut out = String::new();
    let mut i: usize = from;
    while i < to
        invariant
            from <= i <= to <= ws@.len(),
            out@ == join(texts(ws@).subrange(from as int, i as int)),
        decreases to - i,
    {
        let ghost part = texts(ws@).subrange(from as int, i + 1);
        assert(part.drop_last() =~= texts(ws@).subrange(from as int, i as int));
        if i > from {
            out.append(" ");
            proof {
                reveal_strlit(" ");
            }
        } else {
            assert(part =~= seq![ws@[i as int]@]);
        }
        out.append(ws[i].as_str());
        i = i + 1;
    }
    out
}

/// Reads a command such as `20 USD to KZT` or `15 US Dollar to Japanese Yen`.
pub fn parse_command(line: &str) -> (r: Result<(Quantity, String, String), ParseError>)
    ensures
        match command_of(line@) {
            Ok((q, a, b)) => r matches Ok((x, y, z)) && x == q && y@ == a && z@ == b,
            Err(e) => r == Err::<(Quantity, String, String), ParseError>(e),
        },
        r matches Ok((x, _, _)) ==> x.wf(),
{
    let ws = split_words(line);
    let ghost w = texts(ws@);
    if ws.len() < 4 {
        return Err(ParseError::MalformedCommand);
    }
    assert(ws@[0]@ == w[0]);
    let amount = match parse_amount(ws[0].as_str()) {
        None => {
            return Err(ParseError::InvalidAmount);
        },
        Some(q) => q,
    };
    let mut k: usize = 1;
    while k < ws.len() && !eq_ignore_case(ws[k].as_str(), "to")
        invariant
            1 <= k <= ws@.len(),
            w == texts(ws@),
            forall|j: int| 1 <= j < k ==> !is_separator(#[trigger] w[j]),
        decreases ws@.len() - k,
    {
        proof {
            reveal_strlit("to");
            assert(w[k as int] == ws@[k as int]@);
        }
        k = k + 1;
    }
    proof {
        reveal_strlit("to");
    }
    if k == ws.len() {
        assert(separator_index(w) is None);
        return Err(ParseError::MalformedCommand);
    }
    assert(is_separator(w[k as int])) by {
        assert(w[k as int] == ws@[k as int]@);
        assert("to"@ =~= seq!['t', 'o']);
    }
    assert(separator_index(w) == Some(k as int));
    if k == 1 || k == ws.len() - 1 {
        return Err(ParseError::MalformedCommand);
    }
    let from_phrase = join_words(&ws, 1, k);
    let to_phrase = join_words(&ws, k + 1, ws.len());
    Ok((amount, from_phrase, to_phrase))
}

} // verus!
