//! Decimal numerals: the text of a number literal and its canonical form.

use crate::lexical::{lemma_run_end, lemma_run_ends_at, run_end, Run};
use crate::number_facts::{lemma_canonical_same_number, same_number};
use crate::text::{chars_of, string_of};
use vstd::prelude::*;

verus! {

/// The length of the whole part of `s`: the digits before a dot.
pub open spec fn whole_len(s: Seq<char>) -> int {
    run_end(s, 0, Run::Digits)
}

/// Whether `s` is a numeral: one or more digits, which a dot and one or more
/// digits may follow.
pub open spec fn is_numeral(s: Seq<char>) -> bool {
    let whole = whole_len(s);
    &&& 0 < whole
    &&& whole < s.len() ==> {
        &&& s[whole] == '.'
        &&& whole + 1 < s.len()
        &&& run_end(s, whole + 1, Run::Digits) == s.len()
    }
}

/// The first index at or after `from` and before `limit` that holds no zero, or
/// `limit`.
pub open spec fn skip_zeros(s: Seq<char>, from: int, limit: int) -> int
    decreases limit - from,
{
    if 0 <= from < limit && s[from] == '0' {
        skip_zeros(s, from + 1, limit)
    } else {
        from
    }
}

/// The least end at or before `to` and after `limit` such that `s[..end]` ends
/// in no zero, or `limit`.
pub open spec fn drop_zeros(s: Seq<char>, to: int, limit: int) -> int
    decreases to - limit,
{
    if limit < to && s[to - 1] == '0' {
        drop_zeros(s, to - 1, limit)
    } else {
        to
    }
}

/// Where the canonical form of the numeral `s` starts in `s`: after the zeros
/// that lead its whole part, whose last digit stays in any case.
pub open spec fn canonical_start(s: Seq<char>) -> int {
    skip_zeros(s, 0, whole_len(s) - 1)
}

/// Where the canonical form of the numeral `s` ends in `s`: before the zeros
/// that trail its fraction, and before the dot if no digit of the fraction is
/// left.
pub open spec fn canonical_end(s: Seq<char>) -> int {
    let whole = whole_len(s);
    if whole < s.len() {
        let end = drop_zeros(s, s.len() as int, whole + 1);
        if end == whole + 1 {
            whole
        } else {
            end
        }
    } else {
        whole
    }
}

/// The canonical form of the numeral `s`: the same number written without
/// needless zeros, and without a fraction that is zero.
pub open spec fn canonical(s: Seq<char>) -> Seq<char> {
    s.subrange(canonical_start(s), canonical_end(s))
}

/// Whether `s` is a numeral in canonical form.
pub open spec fn is_canonical(s: Seq<char>) -> bool {
    &&& is_numeral(s)
    &&& canonical_start(s) == 0
    &&& canonical_end(s) == s.len()
}

/// The zeros skipped from `from` end between `from` and `limit`, and every
/// character skipped is a zero.
pub proof fn lemma_skip_zeros(s: Seq<char>, from: int, limit: int)
    requires
        0 <= from <= limit,
    ensures
        from <= skip_zeros(s, from, limit) <= limit,
        skip_zeros(s, from, limit) < limit ==> s[skip_zeros(s, from, limit)] != '0',
        forall|i: int| from <= i < skip_zeros(s, from, limit) ==> #[trigger] s[i] == '0',
    decreases limit - from,
{
    if from < limit && s[from] == '0' {
        lemma_skip_zeros(s, from + 1, limit);
    }
}

/// The zeros dropped before `to` end between `limit` and `to`, and what is left
/// ends in no zero.
pub proof fn lemma_drop_zeros(s: Seq<char>, to: int, limit: int)
    requires
        limit <= to,
    ensures
        limit <= drop_zeros(s, to, limit) <= to,
        limit < drop_zeros(s, to, limit) ==> s[drop_zeros(s, to, limit) - 1] != '0',
        forall|i: int| drop_zeros(s, to, limit) <= i < to ==> #[trigger] s[i] == '0',
    decreases to - limit,
{
    if limit < to && s[to - 1] == '0' {
        lemma_drop_zeros(s, to - 1, limit);
    }
}

/// The canonical form of a numeral is a stretch of it that holds the last digit
/// of its whole part.
pub proof fn lemma_canonical_bounds(s: Seq<char>)
    requires
        is_numeral(s),
    ensures
        0 <= canonical_start(s) < whole_len(s) <= canonical_end(s) <= s.len(),
        canonical_end(s) == whole_len(s) || canonical_end(s) >= whole_len(s) + 2,
{
    let whole = whole_len(s);
    lemma_run_end(s, 0, Run::Digits);
    lemma_skip_zeros(s, 0, whole - 1);
    if whole < s.len() {
        lemma_drop_zeros(s, s.len() as int, whole + 1);
    }
}

/// The canonical form of a numeral is a numeral in canonical form, with what
/// is left of the whole part as its whole part.
pub proof fn lemma_canonical_is_canonical(s: Seq<char>)
    requires
        is_numeral(s),
    ensures
        is_canonical(canonical(s)),
        whole_len(canonical(s)) == whole_len(s) - canonical_start(s),
{
    let whole = whole_len(s);
    let start = canonical_start(s);
    let end = canonical_end(s);
    let t = canonical(s);
    lemma_canonical_bounds(s);
    lemma_run_end(s, 0, Run::Digits);
    lemma_skip_zeros(s, 0, whole - 1);
    assert(t.len() == end - start);
    assert forall|i: int| 0 <= i < whole - start implies Run::Digits.holds(#[trigger] t[i]) by {
        assert(t[i] == s[start + i]);
    }
    if end > whole {
        lemma_run_end(s, whole + 1, Run::Digits);
        lemma_drop_zeros(s, s.len() as int, whole + 1);
        assert(t[whole - start] == s[whole]);
        lemma_run_ends_at(t, 0, whole - start, Run::Digits);
        assert forall|i: int| whole - start + 1 <= i < t.len() implies Run::Digits.holds(
            #[trigger] t[i],
        ) by {
            assert(t[i] == s[start + i]);
        }
        lemma_run_ends_at(t, whole - start + 1, t.len() as int, Run::Digits);
        assert(t[t.len() - 1] == s[end - 1]);
        assert(drop_zeros(t, t.len() as int, whole - start + 1) == t.len());
    } else {
        lemma_run_ends_at(t, 0, whole - start, Run::Digits);
    }
    assert(whole_len(t) == whole - start);
    assert(t[0] == s[start]);
    assert(skip_zeros(t, 0, whole - start - 1) == 0);
}

/// A number literal, held as its decimal numeral in canonical form.
#[derive(Debug)]
pub struct Decimal {
    text: String,
}

impl View for Decimal {
    type V = Seq<char>;

    closed spec fn view(&self) -> Seq<char> {
        self.text@
    }
}

impl Clone for Decimal {
    fn clone(&self) -> (copy: Decimal)
        ensures
            copy@ == self@,
    {
        proof {
            use_type_invariant(self);
        }
        Decimal { text: self.text.clone() }
    }
}

impl Decimal {
    #[verifier::type_invariant]
    spec fn canonical_form(&self) -> bool {
        is_canonical(self.text@)
    }

    /// The number that the numeral `text` writes, held as the canonical form of
    /// `text`, or nothing if `text` is no numeral.
    pub fn parse(text: &str) -> (number: Option<Decimal>)
        ensures
            number is Some <==> is_numeral(text@),
            number is Some ==> number.unwrap()@ == canonical(text@),
            number is Some ==> same_number(text@, number.unwrap()@),
    {
        let chars = chars_of(text);
        let len = chars.len();
        let mut whole: usize = 0;
        while whole < len && chars[whole] >= '0' && chars[whole] <= '9'
            invariant
                whole <= len == chars@.len(),
                run_end(chars@, whole as int, Run::Digits) == whole_len(chars@),
            decreases len - whole,
        {
            whole += 1;
        }
        if whole == 0 {
            return None;
        }
        let mut end: usize = len;
        if whole < len {
            if chars[whole] != '.' || whole + 1 >= len {
                return None;
            }
            let mut fraction: usize = whole + 1;
            while fraction < len && chars[fraction] >= '0' && chars[fraction] <= '9'
                invariant
                    whole < fraction <= len == chars@.len(),
                    run_end(chars@, fraction as int, Run::Digits) == run_end(
                        chars@,
                        whole + 1,
                        Run::Digits,
                    ),
                decreases len - fraction,
            {
                fraction += 1;
            }
            if fraction < len {
                return None;
            }
            while end > whole + 1 && chars[end - 1] == '0'
                invariant
                    whole + 1 <= end <= len == chars@.len(),
                    drop_zeros(chars@, end as int, whole + 1) == drop_zeros(
                        chars@,
                        len as int,
                        whole + 1,
                    ),
                decreases end - whole,
            {
                end -= 1;
            }
            if end == whole + 1 {
                end = whole;
            }
        }
        let mut start: usize = 0;
        while start + 1 < whole && chars[start] == '0'
            invariant
                start < whole <= len == chars@.len(),
                skip_zeros(chars@, start as int, whole - 1) == skip_zeros(chars@, 0, whole - 1),
            decreases whole - start,
        {
            start += 1;
        }
        proof {
            lemma_canonical_is_canonical(text@);
            lemma_canonical_same_number(text@);
        }
        Some(Decimal { text: string_of(&chars, start, end) })
    }

    /// The numeral of this number.
    pub fn as_str(&self) -> (text: &str)
        ensures
            text@ == self@,
            is_canonical(text@),
    {
        proof {
            use_type_invariant(self);
        }
        self.text.as_str()
    }
}

} // verus!
