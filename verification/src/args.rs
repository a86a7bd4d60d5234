//! Argument recovery: from the full command line being completed and the
//! cursor offset within it, extract the word the user is currently typing.
//!
//! The command line is truncated to the first `offset` characters
//! (character-based, never splitting a multi-byte character) and the last
//! whitespace-delimited token of that prefix is the current argument.

use vstd::prelude::*;

verus! {

/// Whether `c` is a whitespace character, by the Unicode `White_Space`
/// property (the set `str::split_whitespace` splits on).
pub open spec fn spec_is_ws(c: char) -> bool {
    let u = c as u32;
    u == 0x20 || (0x09 <= u && u <= 0x0D) || u == 0x85 || u == 0xA0 || u == 0x1680 || (0x2000
        <= u && u <= 0x200A) || u == 0x2028 || u == 0x2029 || u == 0x202F || u == 0x205F || u
        == 0x3000
}

/// Decides `spec_is_ws`.
pub fn is_ws(c: char) -> (r: bool)
    ensures
        r == spec_is_ws(c),
{
    let u = c as u32;
    u == 0x20 || (0x09 <= u && u <= 0x0D) || u == 0x85 || u == 0xA0 || u == 0x1680 || (0x2000
        <= u && u <= 0x200A) || u == 0x2028 || u == 0x2029 || u == 0x202F || u == 0x205F || u
        == 0x3000
}

/// The longest suffix of `s` made only of non-whitespace characters.
pub open spec fn tail_token(s: Seq<char>) -> Seq<char>
    decreases s.len(),
{
    if s.len() == 0 || spec_is_ws(s.last()) {
        Seq::empty()
    } else {
        tail_token(s.drop_last()).push(s.last())
    }
}

/// The last whitespace-delimited token of `s`: `None` when `s` is empty or
/// all whitespace, otherwise the maximal non-whitespace run that ends the
/// string once trailing whitespace is dropped.
pub open spec fn spec_last_token(s: Seq<char>) -> Option<Seq<char>>
    decreases s.len(),
{
    if s.len() == 0 {
        None
    } else if spec_is_ws(s.last()) {
        spec_last_token(s.drop_last())
    } else {
        Some(tail_token(s))
    }
}

/// The first `n` characters of `s`, or all of `s` when it is shorter.
pub open spec fn spec_char_prefix(s: Seq<char>, n: int) -> Seq<char> {
    if n <= s.len() {
        s.take(n)
    } else {
        s
    }
}

/// Whether `t` stands at `[b, e)` in `s` as its last whitespace-delimited
/// token: a non-empty run of non-whitespace characters, preceded by a
/// whitespace character or the start of `s`, followed only by whitespace.
pub open spec fn is_last_token_at(s: Seq<char>, b: int, e: int, t: Seq<char>) -> bool {
    &&& 0 <= b < e <= s.len()
    &&& t == s.subrange(b, e)
    &&& forall|i: int| b <= i < e ==> !spec_is_ws(#[trigger] s[i])
    &&& forall|i: int| e <= i < s.len() ==> spec_is_ws(#[trigger] s[i])
    &&& b == 0 || spec_is_ws(s[b - 1])
}

proof fn lemma_tail_token_props(s: Seq<char>)
    ensures
        tail_token(s).len() <= s.len(),
        tail_token(s) == s.subrange(s.len() - tail_token(s).len(), s.len() as int),
        forall|i: int| s.len() - tail_token(s).len() <= i < s.len() ==> !spec_is_ws(
            #[trigger] s[i],
        ),
        s.len() > tail_token(s).len() ==> spec_is_ws(s[s.len() - tail_token(s).len() - 1]),
    decreases s.len(),
{
    if s.len() == 0 || spec_is_ws(s.last()) {
        assert(tail_token(s) =~= s.subrange(s.len() as int, s.len() as int));
    } else {
        lemma_tail_token_props(s.drop_last());
        let d = s.drop_last();
        assert(forall|i: int| 0 <= i < d.len() ==> d[i] == #[trigger] s[i]);
        let k = tail_token(d).len() as int;
        assert(tail_token(s) == tail_token(d).push(s.last()));
        assert(tail_token(s).len() == k + 1);
        assert(tail_token(s) =~= s.subrange(s.len() - k - 1, s.len() as int));
        assert forall|i: int| s.len() - tail_token(s).len() <= i < s.len() implies !spec_is_ws(
            #[trigger] s[i],
        ) by {
            if i < s.len() - 1 {
                assert(s[i] == d[i]);
                assert(!spec_is_ws(d[i]));
            } else {
                assert(s[i] == s.last());
            }
        }
        if s.len() > k + 1 {
            assert(s[s.len() - k - 2] == d[d.len() - k - 1]);
        }
    }
}

/// The meaning of `spec_last_token`: it is `None` exactly on all-whitespace
/// input, and otherwise yields the one substring of `s` that stands as its
/// last whitespace-delimited token, at the returned bounds.
pub proof fn lemma_last_token_characterization(s: Seq<char>) -> (w: (int, int))
    ensures
        (spec_last_token(s) is None) <==> (forall|i: int|
            0 <= i < s.len() ==> spec_is_ws(#[trigger] s[i])),
        spec_last_token(s) is Some ==> is_last_token_at(
            s,
            w.0,
            w.1,
            spec_last_token(s)->Some_0,
        ),
    decreases s.len(),
{
    if s.len() == 0 {
        (0, 0)
    } else if spec_is_ws(s.last()) {
        let d = s.drop_last();
        let w = lemma_last_token_characterization(d);
        assert(forall|i: int| 0 <= i < d.len() ==> d[i] == #[trigger] s[i]);
        match spec_last_token(s) {
            Some(t) => {
                let (b, e) = w;
                assert(is_last_token_at(d, b, e, t));
                assert(s.subrange(b, e) =~= d.subrange(b, e));
                assert forall|i: int| b <= i < e implies !spec_is_ws(#[trigger] s[i]) by {
                    assert(s[i] == d[i]);
                    assert(!spec_is_ws(d[i]));
                }
                assert forall|i: int| e <= i < s.len() implies spec_is_ws(#[trigger] s[i]) by {
                    if i < s.len() - 1 {
                        assert(s[i] == d[i]);
                        assert(spec_is_ws(d[i]));
                    } else {
                        assert(s[i] == s.last());
                    }
                }
                if b > 0 {
                    assert(s[b - 1] == d[b - 1]);
                }
                assert(is_last_token_at(s, b, e, t));
            },
            None => {},
        }
        w
    } else {
        lemma_tail_token_props(s);
        let t = tail_token(s);
        let e = s.len() as int;
        let b = s.len() - t.len();
        assert(t.len() > 0);
        assert(!spec_is_ws(s[s.len() - 1]));
        assert(is_last_token_at(s, b, e, t));
        (b, e)
    }
}

/// The last whitespace-delimited token of a string is unique: any two
/// positions that stand as one agree, bounds and content alike.
pub proof fn lemma_last_token_unique(
    s: Seq<char>,
    b1: int,
    e1: int,
    t1: Seq<char>,
    b2: int,
    e2: int,
    t2: Seq<char>,
)
    requires
        is_last_token_at(s, b1, e1, t1),
        is_last_token_at(s, b2, e2, t2),
    ensures
        b1 == b2,
        e1 == e2,
        t1 == t2,
{
    if e1 < e2 {
        assert(spec_is_ws(s[e2 - 1]));
        assert(!spec_is_ws(s[e2 - 1]));
    }
    if e2 < e1 {
        assert(spec_is_ws(s[e1 - 1]));
        assert(!spec_is_ws(s[e1 - 1]));
    }
    if b1 < b2 {
        assert(spec_is_ws(s[b2 - 1]));
        assert(!spec_is_ws(s[b2 - 1]));
    }
    if b2 < b1 {
        assert(spec_is_ws(s[b1 - 1]));
        assert(!spec_is_ws(s[b1 - 1]));
    }
}

/// The last whitespace-delimited token of `s`.
pub fn last_token(s: &str) -> (r: Option<String>)
    ensures
        match r {
            Some(t) => spec_last_token(s@) == Some(t@),
            None => spec_last_token(s@) is None,
        },
{
    let n = s.unicode_len();
    proof {
        assert(s@.take(n as int) =~= s@);
    }
    let mut end: usize = n;
    while end > 0 && is_ws(s.get_char(end - 1))
        invariant
            end <= n,
            n == s@.len(),
            spec_last_token(s@) == spec_last_token(s@.take(end as int)),
        decreases end,
    {
        proof {
            assert(s@.take(end as int).drop_last() =~= s@.take(end as int - 1));
            assert(s@.take(end as int).last() == s@[end - 1]);
        }
        end = end - 1;
    }
    if end == 0 {
        proof {
            assert(s@.take(0) =~= Seq::<char>::empty());
        }
        return None;
    }
    let ghost full = s@.take(end as int);
    let mut start: usize = end;
    proof {
        assert(s@.subrange(end as int, end as int) =~= Seq::<char>::empty());
        assert(tail_token(full) + s@.subrange(end as int, end as int) =~= tail_token(full));
    }
    while start > 0 && !is_ws(s.get_char(start - 1))
        invariant
            start <= end <= n,
            n == s@.len(),
            end > 0,
            full == s@.take(end as int),
            !spec_is_ws(s@[end - 1]),
            tail_token(full) == tail_token(s@.take(start as int)) + s@.subrange(
                start as int,
                end as int,
            ),
        decreases start,
    {
        proof {
            let prev = s@.take(start as int);
            assert(prev.drop_last() =~= s@.take(start as int - 1));
            assert(prev.last() == s@[start - 1]);
            assert(tail_token(prev) == tail_token(s@.take(start as int - 1)).push(
                s@[start - 1],
            ));
            assert(tail_token(s@.take(start as int - 1)) + s@.subrange(
                start as int - 1,
                end as int,
            ) =~= tail_token(prev) + s@.subrange(start as int, end as int));
        }
        start = start - 1;
    }
    proof {
        if start == 0 {
            assert(s@.take(0) =~= Seq::<char>::empty());
            assert(tail_token(s@.take(0)) =~= Seq::<char>::empty());
        } else {
            assert(s@.take(start as int).last() == s@[start - 1]);
            assert(tail_token(s@.take(start as int)) =~= Seq::<char>::empty());
        }
        assert(tail_token(full) =~= s@.subrange(start as int, end as int));
        assert(full.last() == s@[end - 1]);
        assert(spec_last_token(full) == Some(tail_token(full)));
    }
    let tok = s.substring_char(start, end).to_owned();
    Some(tok)
}

/// The first `n` characters of `s` as a sub-slice.
pub fn char_prefix<'a>(s: &'a str, n: usize) -> (r: &'a str)
    ensures
        r@ == spec_char_prefix(s@, n as int),
{
    let len = s.unicode_len();
    let m = if n < len {
        n
    } else {
        len
    };
    let r = s.substring_char(0, m);
    proof {
        assert(s@.subrange(0, m as int) =~= spec_char_prefix(s@, n as int));
    }
    r
}

/// Whether `c` is a decimal digit.
pub open spec fn spec_is_digit(c: char) -> bool {
    0x30 <= c as u32 && c as u32 <= 0x39
}

/// The value of the decimal digit `c`.
pub open spec fn spec_digit_val(c: char) -> int {
    c as u32 - 0x30
}

/// Whether every character of `s` is a decimal digit.
pub open spec fn all_digits(s: Seq<char>) -> bool {
    forall|i: int| 0 <= i < s.len() ==> spec_is_digit(#[trigger] s[i])
}

/// The numeric value of the digit string `s`, most significant digit first.
pub open spec fn digits_value(s: Seq<char>) -> int
    decreases s.len(),
{
    if s.len() == 0 {
        0
    } else {
        digits_value(s.drop_last()) * 10 + spec_digit_val(s.last())
    }
}

/// What `str::parse::<usize>` accepts: an optional leading `+`, then at
/// least one decimal digit, whose value fits in `usize`.
pub open spec fn spec_parse_usize(s: Seq<char>) -> Option<int> {
    let body = if s.len() > 0 && s[0] == '+' {
        s.drop_first()
    } else {
        s
    };
    if body.len() > 0 && all_digits(body) && digits_value(body) <= usize::MAX as int {
        Some(digits_value(body))
    } else {
        None
    }
}

proof fn lemma_digits_value_nonneg(s: Seq<char>)
    requires
        all_digits(s),
    ensures
        digits_value(s) >= 0,
    decreases s.len(),
{
    if s.len() > 0 {
        assert(forall|i: int|
            0 <= i < s.drop_last().len() ==> spec_is_digit(#[trigger] s.drop_last()[i]));
        lemma_digits_value_nonneg(s.drop_last());
    }
}

proof fn lemma_digits_value_mono(s: Seq<char>, i: int)
    requires
        all_digits(s),
        0 <= i <= s.len(),
    ensures
        digits_value(s.take(i)) <= digits_value(s),
    decreases s.len() - i,
{
    if i == s.len() {
        assert(s.take(i) =~= s);
    } else {
        assert(s.take(i + 1).drop_last() =~= s.take(i));
        assert(s.take(i + 1).last() == s[i]);
        assert(forall|j: int| 0 <= j < s.take(i).len() ==> spec_is_digit(#[trigger] s.take(i)[j]));
        lemma_digits_value_nonneg(s.take(i));
        assert(digits_value(s.take(i + 1)) == digits_value(s.take(i)) * 10 + spec_digit_val(
            s[i],
        ));
        assert(digits_value(s.take(i)) * 10 >= digits_value(s.take(i))) by (nonlinear_arith)
            requires
                digits_value(s.take(i)) >= 0,
        ;
        lemma_digits_value_mono(s, i + 1);
    }
}

/// Parses `s` as `str::parse::<usize>` does: an optional leading `+`, then
/// decimal digits; `None` on anything else or on overflow.
pub fn parse_usize(s: &str) -> (r: Option<usize>)
    ensures
        match r {
            Some(v) => spec_parse_usize(s@) == Some(v as int),
            None => spec_parse_usize(s@) is None,
        },
{
    let n = s.unicode_len();
    let start: usize = if n > 0 && s.get_char(0) == '+' {
        1
    } else {
        0
    };
    let ghost body = if start == 1 {
        s@.drop_first()
    } else {
        s@
    };
    proof {
        if start == 1 {
            assert(body =~= s@.subrange(1, n as int));
        } else {
            assert(body =~= s@.subrange(0, n as int));
        }
    }
    if start == n {
        return None;
    }
    let mut acc: usize = 0;
    let mut i: usize = start;
    while i < n
        invariant
            start <= i <= n,
            n == s@.len(),
            start == 0 || start == 1,
            start == 1 ==> n > 0 && s@[0] == '+',
            start == 0 ==> !(n > 0 && s@[0] == '+'),
            start < n,
            body == s@.subrange(start as int, n as int),
            body == (if s@.len() > 0 && s@[0] == '+' {
                s@.drop_first()
            } else {
                s@
            }),
            all_digits(body.take(i - start)),
            acc as int == digits_value(body.take(i - start)),
        decreases n - i,
    {
        let c = s.get_char(i);
        proof {
            assert(body[i - start] == s@[i as int]);
        }
        let u = c as u32;
        if u < 0x30 || u > 0x39 {
            proof {
                assert(!spec_is_digit(body[i - start]));
                assert(!all_digits(body));
            }
            return None;
        }
        let d = (u - 0x30) as usize;
        proof {
            assert(body.take(i - start + 1).drop_last() =~= body.take(i - start));
            assert(body.take(i - start + 1).last() == body[i - start]);
            assert(digits_value(body.take(i - start + 1)) == acc as int * 10 + d as int);
        }
        if acc > (usize::MAX - d) / 10 {
            proof {
                let m = usize::MAX as int;
                assert(acc as int * 10 + d as int > m) by (nonlinear_arith)
                    requires
                        acc as int > (m - d as int) / 10,
                        0 <= d as int <= 9,
                        m > 100,
                ;
                assert(forall|j: int|
                    0 <= j < body.take(i - start + 1).len() ==> spec_is_digit(
                        #[trigger] body.take(i - start + 1)[j],
                    ));
                if all_digits(body) {
                    lemma_digits_value_mono(body, i - start + 1);
                    assert(digits_value(body) > m);
                }
            }
            return None;
        }
        proof {
            let m = usize::MAX as int;
            assert(acc as int * 10 + d as int <= m) by (nonlinear_arith)
                requires
                    acc as int <= (m - d as int) / 10,
                    0 <= d as int <= 9,
                    m > 100,
            ;
        }
        acc = acc * 10 + d;
        i = i + 1;
    }
    proof {
        assert(body.take(n - start) =~= body);
    }
    Some(acc)
}

/// What the recovered current argument is, as a function of the two
/// environment inputs: `None` when either is absent or the offset does not
/// parse; otherwise the last token of the command line truncated to the
/// offset (in characters).
pub open spec fn spec_recover(line: Option<Seq<char>>, point: Option<Seq<char>>) -> Option<
    Seq<char>,
> {
    match (line, point) {
        (Some(l), Some(p)) => match spec_parse_usize(p) {
            Some(n) => spec_last_token(spec_char_prefix(l, n)),
            None => None,
        },
        _ => None,
    }
}

/// Recovers the in-progress word from the raw environment inputs: the full
/// command line and the cursor offset, each `None` when its variable was
/// absent.
pub fn recover_current_arg(line: Option<String>, point: Option<String>) -> (r: Option<String>)
    ensures
        match r {
            Some(t) => spec_recover(line.deep_view(), point.deep_view()) == Some(t@),
            None => spec_recover(line.deep_view(), point.deep_view()) is None,
        },
{
    let l = match line {
        Some(l) => l,
        None => {
            return None;
        },
    };
    let p = match point {
        Some(p) => p,
        None => {
            return None;
        },
    };
    let n = match parse_usize(p.as_str()) {
        Some(n) => n,
        None => {
            return None;
        },
    };
    let prefix = char_prefix(l.as_str(), n);
    last_token(prefix)
}

} // verus!
