//! Character-level text facts: ASCII case-insensitive equality and the
//! Unicode `White_Space` property.
use vstd::prelude::*;

verus! {

/// `c` is an ASCII capital letter.
pub open spec fn is_upper(c: char) -> bool {
    65 <= c as u32 && c as u32 <= 90
}

/// Two characters are equal once ASCII letters are folded to lower case.
pub open spec fn same_letter(a: char, b: char) -> bool {
    a as u32 == b as u32 || (is_upper(a) && a as u32 + 32 == b as u32) || (is_upper(b) && b as u32 + 32
        == a as u32)
}

/// Two texts are equal up to the case of their ASCII letters.
pub open spec fn eq_fold(s: Seq<char>, t: Seq<char>) -> bool {
    s.len() == t.len() && forall|i: int| 0 <= i < s.len() ==> same_letter(#[trigger] s[i], t[i])
}

/// `eq_fold` is an equivalence relation.
pub proof fn lemma_eq_fold_equivalence(s: Seq<char>, t: Seq<char>, u: Seq<char>)
    ensures
        eq_fold(s, s),
        eq_fold(s, t) ==> eq_fold(t, s),
        eq_fold(s, t) && eq_fold(t, u) ==> eq_fold(s, u),
{
    if eq_fold(s, t) && eq_fold(t, u) {
        assert forall|i: int| 0 <= i < s.len() implies same_letter(#[trigger] s[i], u[i]) by {
            assert(same_letter(s[i], t[i]));
            assert(same_letter(t[i], u[i]));
        }
    }
}

/// Texts of different lengths, or whose first characters differ as
/// letters, are not equal up to case.
pub proof fn lemma_eq_fold_differs(s: Seq<char>, t: Seq<char>)
    requires
        s.len() != t.len() || (s.len() > 0 && t.len() > 0 && !same_letter(s[0], t[0])),
    ensures
        !eq_fold(s, t),
{
}

/// Compares two texts ignoring the case of ASCII letters.
pub fn eq_ignore_case(a: &str, b: &str) -> (r: bool)
    ensures
        r == eq_fold(a@, b@),
{
    let n = a.unicode_len();
    let m = b.unicode_len();
    if n != m {
        return false;
    }
    let mut i: usize = 0;
    while i < n
        invariant
            n == a@.len(),
            m == b@.len(),
            n == m,
            i <= n,
            forall|k: int| 0 <= k < i ==> same_letter(#[trigger] a@[k], b@[k]),
        decreases n - i,
    {
        let x = a.get_char(i);
        let y = b.get_char(i);
        let (u, v) = (x as u32, y as u32);
        let same = u == v || (65 <= u && u <= 90 && u + 32 == v) || (65 <= v && v <= 90 && v + 32
            == u);
        if !same {
            assert(!same_letter(a@[i as int], b@[i as int]));
            return false;
        }
        i = i + 1;
    }
    true
}

/// The characters that have the Unicode `White_Space` property.
pub open spec fn is_space(c: char) -> bool {
    let u = c as u32;
    (9 <= u && u <= 13) || u == 32 || u == 0x85 || u == 0xA0 || u == 0x1680 || (0x2000 <= u
        && u <= 0x200A) || u == 0x2028 || u == 0x2029 || u == 0x202F || u == 0x205F || u
        == 0x3000
}

/// Tells whether `c` is white space in the Unicode sense.
pub fn is_blank(c: char) -> (r: bool)
    ensures
        r == is_space(c),
{
    let u = c as u32;
    (9 <= u && u <= 13) || u == 32 || u == 0x85 || u == 0xA0 || u == 0x1680 || (0x2000 <= u
        && u <= 0x200A) || u == 0x2028 || u == 0x2029 || u == 0x202F || u == 0x205F || u
        == 0x3000
}

} // verus!
