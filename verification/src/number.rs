//! Number literals: runs of decimal digits with at most one decimal point.

use vstd::prelude::*;
use vstd::std_specs::cmp::PartialEqSpecImpl;

verus! {

/// A decimal digit, `0` to `9`.
pub open spec fn is_digit(c: char) -> bool {
    '0' <= c && c <= '9'
}

/// A character that may stand in a number literal: a digit or the decimal point.
pub open spec fn is_number_char(c: char) -> bool {
    is_digit(c) || c == '.'
}

/// Every character is a digit or a point, and no two of them are points.
pub open spec fn is_number_run(s: Seq<char>) -> bool {
    &&& forall|i: int| 0 <= i < s.len() ==> is_number_char(#[trigger] s[i])
    &&& forall|i: int, j: int|
        0 <= i < s.len() && 0 <= j < s.len() && #[trigger] s[i] == '.' && #[trigger] s[j] == '.'
            ==> i == j
}

/// At least one character is a digit.
pub open spec fn has_digit(s: Seq<char>) -> bool {
    exists|i: int| 0 <= i < s.len() && is_digit(#[trigger] s[i])
}

/// At least one character is a decimal point.
pub open spec fn has_point(s: Seq<char>) -> bool {
    exists|i: int| 0 <= i < s.len() && #[trigger] s[i] == '.'
}

/// The texts that denote a number: digits around at most one point, with at
/// least one digit.  `12`, `1.5`, `.5` and `5.` are number texts; `.`, `1.2.3`
/// and the empty text are not.
pub open spec fn is_number_text(s: Seq<char>) -> bool {
    is_number_run(s) && has_digit(s)
}

/// Whether `c` is a decimal digit.
pub fn is_digit_char(c: char) -> (r: bool)
    ensures
        r == is_digit(c),
{
    '0' <= c && c <= '9'
}

/// What one more character does to a run: it stays a run exactly if the
/// character is a digit, or a point where the run has none.
pub proof fn lemma_run_push(s: Seq<char>, c: char)
    ensures
        is_number_run(s.push(c)) <==> is_number_run(s) && (is_digit(c) || (c == '.' && !has_point(
            s,
        ))),
        has_digit(s.push(c)) <==> has_digit(s) || is_digit(c),
        has_point(s.push(c)) <==> has_point(s) || c == '.',
{
    let t = s.push(c);
    assert(t.len() == s.len() + 1);
    assert(t[s.len() as int] == c);
    assert forall|i: int| 0 <= i < s.len() implies t[i] == s[i] by {}
    if has_digit(s) {
        let i = choose|i: int| 0 <= i < s.len() && is_digit(#[trigger] s[i]);
        assert(is_digit(t[i]));
    }
    if is_digit(c) {
        assert(is_digit(t[s.len() as int]));
    }
    if has_point(s) {
        let i = choose|i: int| 0 <= i < s.len() && #[trigger] s[i] == '.';
        assert(t[i] == '.');
    }
    if c == '.' {
        assert(t[s.len() as int] == '.');
    }
    if is_number_run(t) {
        assert forall|i: int| 0 <= i < s.len() implies is_number_char(#[trigger] s[i]) by {
            assert(is_number_char(t[i]));
        }
        assert forall|i: int, j: int|
            0 <= i < s.len() && 0 <= j < s.len() && #[trigger] s[i] == '.' && #[trigger] s[j]
                == '.' implies i == j by {
            assert(t[i] == '.' && t[j] == '.');
        }
        assert(is_number_char(t[s.len() as int]));
        if c == '.' && has_point(s) {
            let i = choose|i: int| 0 <= i < s.len() && #[trigger] s[i] == '.';
            assert(t[i] == '.' && t[s.len() as int] == '.');
        }
    }
    if is_number_run(s) && (is_digit(c) || (c == '.' && !has_point(s))) {
        assert forall|i: int| 0 <= i < t.len() implies is_number_char(#[trigger] t[i]) by {
            if i < s.len() {
                assert(is_number_char(s[i]));
            }
        }
        assert forall|i: int, j: int|
            0 <= i < t.len() && 0 <= j < t.len() && #[trigger] t[i] == '.' && #[trigger] t[j]
                == '.' implies i == j by {
            if i < s.len() && j < s.len() {
                assert(s[i] == '.' && s[j] == '.');
            } else if i < s.len() {
                assert(s[i] == '.');
            } else if j < s.len() {
                assert(s[j] == '.');
            }
        }
    }
}

/// Whether two vectors hold the same characters in the same order.
pub(crate) fn same_chars(a: &Vec<char>, b: &Vec<char>) -> (r: bool)
    ensures
        r == (a@ == b@),
{
    let n = a.len();
    if n != b.len() {
        return false;
    }
    let mut i: usize = 0;
    while i < n
        invariant
            n == a.len(),
            n == b.len(),
            i <= n,
            forall|j: int| 0 <= j < i ==> a@[j] == b@[j],
        decreases n - i,
    {
        if a[i] != b[i] {
            return false;
        }
        i = i + 1;
    }
    assert(a@ =~= b@);
    true
}

/// A number literal, kept as the text that was written.
///
/// The text always satisfies [`is_number_text`], so it can be read as a decimal
/// number without a further check.
#[derive(Debug, Eq)]
pub struct NumLit {
    text: Vec<char>,
}

impl View for NumLit {
    type V = Seq<char>;

    closed spec fn view(&self) -> Seq<char> {
        self.text@
    }
}

impl NumLit {
    #[verifier::type_invariant]
    spec fn well_formed(&self) -> bool {
        is_number_text(self.text@)
    }

    /// Wraps characters that are known to form a number text.
    pub(crate) fn from_chars(text: Vec<char>) -> (lit: NumLit)
        requires
            is_number_text(text@),
        ensures
            lit@ == text@,
    {
        NumLit { text }
    }

    /// Reads a literal from text; `None` if the text is no number text.
    pub fn new(text: &str) -> (r: Option<NumLit>)
        ensures
            r is Some <==> is_number_text(text@),
            r matches Some(lit) ==> lit@ == text@,
    {
        let mut chars: Vec<char> = Vec::new();
        let mut seen_point = false;
        let mut seen_digit = false;
        let mut valid = true;
        for c in it: text.chars()
            invariant
                it.seq() == text@,
                chars@ == text@.take(it.index()),
                valid <==> is_number_run(chars@),
                valid ==> (seen_point <==> has_point(chars@)),
                seen_digit <==> has_digit(chars@),
        {
            let ghost before = chars@;
            chars.push(c);
            proof {
                lemma_run_push(before, c);
            }
            if is_digit_char(c) {
                seen_digit = true;
            } else if c == '.' && !seen_point {
                seen_point = true;
            } else {
                valid = false;
            }
        }
        assert(chars@ == text@);
        if valid && seen_digit {
            Some(NumLit { text: chars })
        } else {
            None
        }
    }

    /// The characters of the literal, in the order written.
    pub fn chars(&self) -> (r: &Vec<char>)
        ensures
            r@ == self@,
            is_number_text(self@),
    {
        proof {
            use_type_invariant(self);
        }
        &self.text
    }
}

impl PartialEq for NumLit {
    fn eq(&self, other: &Self) -> (r: bool) {
        same_chars(&self.text, &other.text)
    }
}

/// Two literals are equal when they were written alike.
impl PartialEqSpecImpl for NumLit {
    open spec fn obeys_eq_spec() -> bool {
        true
    }

    open spec fn eq_spec(&self, other: &Self) -> bool {
        self@ == other@
    }
}

impl Clone for NumLit {
    fn clone(&self) -> (r: Self)
        ensures
            r@ == self@,
    {
        proof {
            use_type_invariant(self);
        }
        let text = self.text.clone();
        assert(text@ =~= self.text@);
        NumLit { text }
    }
}

} // verus!
