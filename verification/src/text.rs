use vstd::prelude::*;

verus! {

/// `String::push`: the string afterwards is the string before with `c` at its end. Trusted,
/// not proved.
#[verifier::external_body]
pub(crate) fn push_char(s: &mut String, c: char)
    ensures
        final(s)@ == old(s)@.push(c),
{
    s.push(c)
}

/// The characters of a string, in order.
pub fn chars_of(s: &str) -> (v: Vec<char>)
    ensures
        v@ == s@,
{
    let mut v: Vec<char> = Vec::new();
    for c in it: s.chars()
        invariant
            it.seq() == s@,
            v@ == s@.take(it.index() as int),
    {
        v.push(c);
    }
    v
}

/// The string made of the given characters, in order.
pub fn string_of(chars: &Vec<char>) -> (s: String)
    ensures
        s@ == chars@,
{
    let mut s = String::new();
    let mut i: usize = 0;
    while i < chars.len()
        invariant
            i <= chars.len(),
            s@ == chars@.take(i as int),
        decreases chars.len() - i,
    {
        push_char(&mut s, chars[i]);
        i += 1;
    }
    s
}

/// The character that stands for a decimal digit.
pub open spec fn digit_char(d: int) -> char
    recommends
        0 <= d < 10,
{
    ((d + 48) as u8) as char
}

/// The decimal digits of a natural number, most significant first, without leading zeros.
pub open spec fn digits(n: nat) -> Seq<char>
    decreases n,
{
    if n < 10 {
        seq![digit_char(n as int)]
    } else {
        digits(n / 10).push(digit_char((n % 10) as int))
    }
}

/// The canonical decimal text of an integer: a minus sign for a negative one, then its digits.
pub open spec fn decimal_text(n: int) -> Seq<char> {
    if n < 0 {
        seq!['-'] + digits((-n) as nat)
    } else {
        digits(n as nat)
    }
}

/// Appends the decimal digits of `n` to `out`.
fn push_digits(out: &mut Vec<char>, n: u64)
    ensures
        final(out)@ == old(out)@ + digits(n as nat),
    decreases n,
{
    if n >= 10 {
        push_digits(out, n / 10);
    }
    let d: u8 = (n % 10) as u8;
    let c: char = (d + 48) as char;
    out.push(c);
    assert(final(out)@ =~= old(out)@ + digits(n as nat));
}

/// The decimal digits of `n`.
pub fn decimal_chars(n: u64) -> (out: Vec<char>)
    ensures
        out@ == decimal_text(n as int),
{
    let mut out: Vec<char> = Vec::new();
    push_digits(&mut out, n);
    assert(out@ =~= digits(n as nat));
    out
}

/// The text of `serde_json::Number::from(n)` for a `u64`, as its `Display` impl writes it
/// (`to_string`): the decimal digits of `n`, most significant first, without sign or leading
/// zeros. Trusted, not proved.
#[verifier::external_body]
pub(crate) fn unsigned_text(n: u64) -> (out: String)
    ensures
        out@ == decimal_text(n as int),
{
    serde_json::Number::from(n).to_string()
}

/// The text of `serde_json::Number::from(n)` for an `i64`, as its `Display` impl writes it
/// (`to_string`): a minus sign if `n` is negative, then the decimal digits of its magnitude
/// without leading zeros. Trusted, not proved.
#[verifier::external_body]
pub(crate) fn signed_text(n: i64) -> (out: String)
    ensures
        out@ == decimal_text(n as int),
{
    serde_json::Number::from(n).to_string()
}

/// Whether two strings hold the same characters.
pub fn same_text(a: &str, b: &str) -> (same: bool)
    ensures
        same == (a@ == b@),
{
    let left = chars_of(a);
    let right = chars_of(b);
    if left.len() != right.len() {
        return false;
    }
    let mut i: usize = 0;
    while i < left.len()
        invariant
            left@ == a@,
            right@ == b@,
            left.len() == right.len(),
            i <= left.len(),
            forall|k: int| 0 <= k < i ==> left[k] == right[k],
        decreases left.len() - i,
    {
        if left[i] != right[i] {
            assert(a@[i as int] != b@[i as int]);
            return false;
        }
        i = i + 1;
    }
    assert(left@ =~= right@);
    true
}

/// The values of a sequence of outcomes, in order, if all succeeded; the first error
/// otherwise.
pub open spec fn collect<T, E>(outcomes: Seq<Result<T, E>>) -> Result<Seq<T>, E>
    decreases outcomes.len(),
{
    if outcomes.len() == 0 {
        Ok(Seq::empty())
    } else {
        match collect(outcomes.drop_last()) {
            Err(e) => Err(e),
            Ok(values) => match outcomes.last() {
                Ok(v) => Ok(values.push(v)),
                Err(e) => Err(e),
            },
        }
    }
}

/// Where all outcomes succeeded, `collect` holds the value of each at its place; otherwise it
/// holds the error of the first that failed.
pub proof fn lemma_collect<T, E>(outcomes: Seq<Result<T, E>>)
    ensures
        match collect(outcomes) {
            Ok(values) => values.len() == outcomes.len() && forall|i: int|
                0 <= i < outcomes.len() ==> outcomes[i] == Ok::<T, E>(#[trigger] values[i]),
            Err(e) => exists|i: int|
                0 <= i < outcomes.len() && outcomes[i] == Err::<T, E>(e) && forall|j: int|
                    0 <= j < i ==> (#[trigger] outcomes[j]) is Ok,
        },
    decreases outcomes.len(),
{
    if outcomes.len() > 0 {
        let front = outcomes.drop_last();
        lemma_collect(front);
        match collect(front) {
            Err(e) => {
                let i = choose|i: int|
                    0 <= i < front.len() && front[i] == Err::<T, E>(e) && forall|j: int|
                        0 <= j < i ==> (#[trigger] front[j]) is Ok;
                assert(outcomes[i] == front[i]);
                assert forall|j: int| 0 <= j < i implies (#[trigger] outcomes[j]) is Ok by {
                    assert(outcomes[j] == front[j]);
                }
            },
            Ok(values) => {
                match outcomes.last() {
                    Ok(v) => {
                        let all = values.push(v);
                        assert forall|i: int| 0 <= i < outcomes.len() implies outcomes[i] == Ok::<
                            T,
                            E,
                        >(#[trigger] all[i]) by {
                            if i < front.len() {
                                assert(outcomes[i] == front[i]);
                            }
                        }
                    },
                    Err(e) => {
                        let i = outcomes.len() - 1;
                        assert(outcomes[i] == Err::<T, E>(e));
                        assert forall|j: int| 0 <= j < i implies (#[trigger] outcomes[j]) is Ok by {
                            assert(outcomes[j] == front[j]);
                            assert(front[j] == Ok::<T, E>(values[j]));
                        }
                    },
                }
            },
        }
    }
}

/// Where the outcomes before index `i` succeeded and the one at `i` failed, `collect` holds
/// that failure.
pub proof fn lemma_collect_fails<T, E>(outcomes: Seq<Result<T, E>>, i: int)
    requires
        0 <= i < outcomes.len(),
        collect(outcomes.take(i)) is Ok,
        outcomes[i] is Err,
    ensures
        collect(outcomes) == Err::<Seq<T>, E>(outcomes[i]->Err_0),
    decreases outcomes.len() - i,
{
    assert(outcomes.take(i + 1).drop_last() =~= outcomes.take(i));
    lemma_collect_keeps_failure(outcomes, i + 1);
}

/// A failure among the first `n` outcomes is the failure of all of them.
pub proof fn lemma_collect_keeps_failure<T, E>(outcomes: Seq<Result<T, E>>, n: int)
    requires
        0 <= n <= outcomes.len(),
        collect(outcomes.take(n)) is Err,
    ensures
        collect(outcomes) == collect(outcomes.take(n)),
    decreases outcomes.len() - n,
{
    if n == outcomes.len() {
        assert(outcomes.take(n) =~= outcomes);
    } else {
        assert(outcomes.take(n + 1).drop_last() =~= outcomes.take(n));
        lemma_collect_keeps_failure(outcomes, n + 1);
    }
}

} // verus!
