//! Character-level text utilities shared by the structure-file and
//! topology-file grammars: whitespace splitting, trimming, decimal
//! integer reading and printing, and numeric-token validation.

use vstd::prelude::*;
use vstd::string::StrSliceExecFns;
use vstd::string::StringExecFns;

verus! {

/// Horizontal whitespace that separates fields within a line.
pub open spec fn is_ws(c: char) -> bool {
    c == ' ' || c == '\t' || c == '\r'
}

pub open spec fn is_digit(c: char) -> bool {
    48 <= c as u32 && c as u32 <= 57
}

pub open spec fn digit_val(c: char) -> int {
    c as u32 - 48
}

/// The decimal digit character for a value below ten.
pub open spec fn digit_char(d: int) -> char {
    if d == 0 {
        '0'
    } else if d == 1 {
        '1'
    } else if d == 2 {
        '2'
    } else if d == 3 {
        '3'
    } else if d == 4 {
        '4'
    } else if d == 5 {
        '5'
    } else if d == 6 {
        '6'
    } else if d == 7 {
        '7'
    } else if d == 8 {
        '8'
    } else {
        '9'
    }
}

/// Decimal rendering of a natural number, most significant digit first.
pub open spec fn spec_dec(n: nat) -> Seq<char>
    decreases n,
{
    if n < 10 {
        seq![digit_char(n as int)]
    } else {
        spec_dec(n / 10).push(digit_char((n % 10) as int))
    }
}

pub open spec fn all_digits(s: Seq<char>) -> bool {
    forall|i: int| 0 <= i < s.len() ==> is_digit(#[trigger] s[i])
}

/// Value of a digit string read in base ten.
pub open spec fn spec_val(s: Seq<char>) -> nat
    decreases s.len(),
{
    if s.len() == 0 {
        0
    } else {
        (spec_val(s.take(s.len() - 1)) * 10 + (if is_digit(s.last()) {
            digit_val(s.last())
        } else {
            0
        })) as nat
    }
}

proof fn lemma_digit_char_val(d: int)
    requires
        0 <= d < 10,
    ensures
        is_digit(digit_char(d)),
        digit_val(digit_char(d)) == d,
{
}

pub proof fn lemma_dec_digits(n: nat)
    ensures
        spec_dec(n).len() >= 1,
        all_digits(spec_dec(n)),
    decreases n,
{
    if n < 10 {
        lemma_digit_char_val(n as int);
    } else {
        lemma_dec_digits(n / 10);
        lemma_digit_char_val((n % 10) as int);
    }
}

/// Reading back the decimal rendering of `n` yields `n`.
pub proof fn lemma_val_dec(n: nat)
    ensures
        spec_val(spec_dec(n)) == n,
    decreases n,
{
    if n < 10 {
        lemma_digit_char_val(n as int);
        assert(spec_dec(n).take(0) =~= Seq::<char>::empty());
        assert(spec_val(spec_dec(n)) == spec_val(Seq::<char>::empty()) * 10 + n);
    } else {
        lemma_val_dec(n / 10);
        lemma_digit_char_val((n % 10) as int);
        let s = spec_dec(n);
        assert(s.last() == digit_char((n % 10) as int));
        assert(s.take(s.len() - 1) =~= spec_dec(n / 10));
        assert(spec_val(s) == (n / 10) * 10 + n % 10);
        assert((n / 10) * 10 + n % 10 == n) by (nonlinear_arith);
    }
}

/// Decimal renderings of distinct numbers are distinct.
pub proof fn lemma_dec_injective(a: nat, b: nat)
    requires
        spec_dec(a) == spec_dec(b),
    ensures
        a == b,
{
    lemma_val_dec(a);
    lemma_val_dec(b);
}

/// The value of a digit string only grows as more digits are appended.
pub proof fn lemma_val_prefix_le(s: Seq<char>, i: int)
    requires
        0 <= i <= s.len(),
    ensures
        spec_val(s.take(i)) <= spec_val(s),
    decreases s.len() - i,
{
    if i < s.len() {
        let t = s.take(i + 1);
        assert(t.take(t.len() - 1) =~= s.take(i));
        assert(spec_val(s.take(i)) <= spec_val(s.take(i + 1)));
        lemma_val_prefix_le(s, i + 1);
    } else {
        assert(s.take(i) =~= s);
    }
}

fn digit_str(d: u64) -> (r: &'static str)
    requires
        d < 10,
    ensures
        r@ =~= seq![digit_char(d as int)],
{
    proof {
        reveal_strlit("0");
        reveal_strlit("1");
        reveal_strlit("2");
        reveal_strlit("3");
        reveal_strlit("4");
        reveal_strlit("5");
        reveal_strlit("6");
        reveal_strlit("7");
        reveal_strlit("8");
        reveal_strlit("9");
    }
    if d == 0 {
        "0"
    } else if d == 1 {
        "1"
    } else if d == 2 {
        "2"
    } else if d == 3 {
        "3"
    } else if d == 4 {
        "4"
    } else if d == 5 {
        "5"
    } else if d == 6 {
        "6"
    } else if d == 7 {
        "7"
    } else if d == 8 {
        "8"
    } else {
        "9"
    }
}

/// Decimal rendering of `n` as an owned string.
pub fn u64_to_string(n: u64) -> (r: String)
    ensures
        r@ == spec_dec(n as nat),
    decreases n,
{
    if n < 10 {
        String::from_str(digit_str(n))
    } else {
        let prefix = u64_to_string(n / 10);
        let r = prefix.concat(digit_str(n % 10));
        proof {
            assert(r@ =~= spec_dec(n as nat));
        }
        r
    }
}

/// Reads a non-empty all-digit string as a `usize`; yields nothing when a
/// character is not a digit or the value does not fit.
pub fn parse_usize(s: &str) -> (r: Option<usize>)
    ensures
        match r {
            Some(v) => s@.len() > 0 && all_digits(s@) && spec_val(s@) == v as nat,
            None => s@.len() == 0 || !all_digits(s@) || spec_val(s@) > usize::MAX,
        },
{
    let n = s.unicode_len();
    if n == 0 {
        return None;
    }
    let mut acc: usize = 0;
    let mut i: usize = 0;
    while i < n
        invariant
            0 <= i <= n,
            n == s@.len(),
            all_digits(s@.take(i as int)),
            acc as nat == spec_val(s@.take(i as int)),
        decreases n - i,
    {
        let c = s.get_char(i);
        let u = c as u32;
        if u < 48 || u > 57 {
            assert(!is_digit(s@[i as int]));
            return None;
        }
        let d = (u - 48) as usize;
        if acc > (usize::MAX - d) / 10 {
            proof {
                let t = s@.take(i + 1);
                assert(t.take(t.len() - 1) =~= s@.take(i as int));
                assert(spec_val(t) == acc * 10 + d);
                assert(acc * 10 + d > usize::MAX) by (nonlinear_arith)
                    requires
                        acc > (usize::MAX - d) / 10,
                        d <= 9,
                {
                }
                lemma_val_prefix_le(s@, i + 1);
            }
            return None;
        }
        proof {
            let t = s@.take(i + 1);
            assert(t.take(t.len() - 1) =~= s@.take(i as int));
            assert(forall|j: int|
                0 <= j < t.len() ==> is_digit(#[trigger] t[j]) == is_digit(s@.take(i + 1)[j]));
        }
        acc = acc * 10 + d;
        i = i + 1;
    }
    proof {
        assert(s@.take(n as int) =~= s@);
    }
    Some(acc)
}

/// Fields of a line: the maximal runs of non-whitespace characters, in order.
pub open spec fn spec_tokens(s: Seq<char>) -> Seq<Seq<char>>
    decreases s.len(),
{
    if s.len() == 0 {
        Seq::empty()
    } else if is_ws(s[0]) {
        spec_tokens(s.drop_first())
    } else {
        let rest = spec_tokens(s.drop_first());
        if s.len() > 1 && !is_ws(s[1]) {
            seq![seq![s[0]] + rest[0]] + rest.drop_first()
        } else {
            seq![seq![s[0]]] + rest
        }
    }
}

/// Skipping a whitespace character does not change the remaining fields.
pub proof fn lemma_tokens_ws_step(s: Seq<char>, i: int)
    requires
        0 <= i < s.len(),
        is_ws(s[i]),
    ensures
        spec_tokens(s.skip(i)) == spec_tokens(s.skip(i + 1)),
{
    assert(s.skip(i).drop_first() =~= s.skip(i + 1));
}

/// A maximal non-whitespace run is the next field.
pub proof fn lemma_tokens_tok_step(s: Seq<char>, i: int, j: int)
    requires
        0 <= i < j <= s.len(),
        forall|m: int| i <= m < j ==> !is_ws(#[trigger] s[m]),
        j == s.len() || is_ws(s[j]),
    ensures
        spec_tokens(s.skip(i)) == seq![s.subrange(i, j)] + spec_tokens(s.skip(j)),
    decreases j - i,
{
    let t = s.skip(i);
    assert(t.drop_first() =~= s.skip(i + 1));
    if j - i == 1 {
        if i + 1 == s.len() {
            assert(spec_tokens(t) =~= seq![seq![s[i]]] + spec_tokens(s.skip(j)));
        } else {
            assert(is_ws(t[1]));
            assert(spec_tokens(t) =~= seq![seq![s[i]]] + spec_tokens(s.skip(j)));
        }
        assert(seq![s[i]] =~= s.subrange(i, j));
        assert(spec_tokens(s.skip(i)) =~= seq![s.subrange(i, j)] + spec_tokens(s.skip(j)));
    } else {
        assert(!is_ws(t[1]));
        lemma_tokens_tok_step(s, i + 1, j);
        let rest = spec_tokens(s.skip(i + 1));
        assert(rest[0] == s.subrange(i + 1, j));
        assert(seq![s[i]] + rest[0] =~= s.subrange(i, j));
        assert(rest.drop_first() =~= spec_tokens(s.skip(j)));
        assert(spec_tokens(s.skip(i)) =~= seq![s.subrange(i, j)] + spec_tokens(s.skip(j)));
    }
}

/// Finds the end of the field starting at `i`.
fn token_end(s: &str, i: usize, n: usize) -> (j: usize)
    requires
        n == s@.len(),
        i < n,
        !is_ws(s@[i as int]),
    ensures
        i < j <= n,
        forall|m: int| i <= m < j ==> !is_ws(#[trigger] s@[m]),
        j == n || is_ws(s@[j as int]),
    decreases n - i,
{
    if i + 1 == n {
        return i + 1;
    }
    let c = s.get_char(i + 1);
    if c == ' ' || c == '\t' || c == '\r' {
        i + 1
    } else {
        token_end(s, i + 1, n)
    }
}

/// Splits a line into its whitespace-separated fields.
pub fn split_ws(s: &str) -> (r: Vec<String>)
    ensures
        r@.map_values(|t: String| t@) == spec_tokens(s@),
{
    let n = s.unicode_len();
    let mut r: Vec<String> = Vec::new();
    let mut i: usize = 0;
    proof {
        assert(s@.skip(0) =~= s@);
        assert(r@.map_values(|t: String| t@) + spec_tokens(s@.skip(0)) =~= spec_tokens(s@));
    }
    while i < n
        invariant
            0 <= i <= n,
            n == s@.len(),
            spec_tokens(s@) == r@.map_values(|t: String| t@) + spec_tokens(s@.skip(i as int)),
        decreases n - i,
    {
        let c = s.get_char(i);
        if c == ' ' || c == '\t' || c == '\r' {
            proof {
                lemma_tokens_ws_step(s@, i as int);
            }
            i = i + 1;
        } else {
            let j = token_end(s, i, n);
            let t = String::from_str(s.substring_char(i, j));
            proof {
                lemma_tokens_tok_step(s@, i as int, j as int);
                assert((r@ + seq![t]).map_values(|t: String| t@) =~= r@.map_values(
                    |t: String| t@,
                ) + seq![t@]);
            }
            r.push(t);
            i = j;
        }
    }
    proof {
        assert(s@.skip(n as int) =~= Seq::<char>::empty());
        assert(r@.map_values(|t: String| t@) =~= spec_tokens(s@));
    }
    r
}

/// A well-formed field: non-empty and free of whitespace.
pub open spec fn good_token(t: Seq<char>) -> bool {
    t.len() > 0 && forall|m: int| 0 <= m < t.len() ==> !is_ws(#[trigger] t[m]) && t[m] != '\n'
}

/// Fields joined by single spaces.
pub open spec fn join_sp(toks: Seq<Seq<char>>) -> Seq<char>
    decreases toks.len(),
{
    if toks.len() == 0 {
        Seq::empty()
    } else if toks.len() == 1 {
        toks[0]
    } else {
        toks[0] + seq![' '] + join_sp(toks.drop_first())
    }
}

/// Splitting fields joined by single spaces recovers the fields.
pub proof fn lemma_tokens_join(toks: Seq<Seq<char>>)
    requires
        forall|i: int| 0 <= i < toks.len() ==> good_token(#[trigger] toks[i]),
    ensures
        spec_tokens(join_sp(toks)) == toks,
    decreases toks.len(),
{
    let s = join_sp(toks);
    if toks.len() == 0 {
    } else if toks.len() == 1 {
        assert(good_token(toks[0]));
        lemma_tokens_tok_step(s, 0, s.len() as int);
        assert(s.skip(0) =~= s);
        assert(s.subrange(0, s.len() as int) =~= toks[0]);
        assert(s.skip(s.len() as int) =~= Seq::<char>::empty());
        assert(spec_tokens(s) =~= toks);
    } else {
        let t0 = toks[0];
        let rest = toks.drop_first();
        lemma_tokens_join(rest);
        assert(good_token(t0));
        assert(forall|m: int| 0 <= m < t0.len() ==> s[m] == t0[m]);
        assert(s[t0.len() as int] == ' ');
        lemma_tokens_tok_step(s, 0, t0.len() as int);
        assert(s.skip(0) =~= s);
        assert(s.subrange(0, t0.len() as int) =~= t0);
        lemma_tokens_ws_step(s, t0.len() as int);
        assert(s.skip(t0.len() as int + 1) =~= join_sp(rest));
        assert(spec_tokens(s) =~= toks);
    }
}

/// Lines of a text, split at every newline; a trailing newline yields a
/// final empty line, and an empty text is one empty line.
pub open spec fn spec_split_lines(s: Seq<char>) -> Seq<Seq<char>>
    decreases s.len(),
{
    if s.len() == 0 {
        seq![Seq::<char>::empty()]
    } else if s[0] == '\n' {
        seq![Seq::<char>::empty()] + spec_split_lines(s.drop_first())
    } else {
        let rest = spec_split_lines(s.drop_first());
        seq![seq![s[0]] + rest[0]] + rest.drop_first()
    }
}

pub proof fn lemma_split_lines_len(s: Seq<char>)
    ensures
        spec_split_lines(s).len() >= 1,
    decreases s.len(),
{
    if s.len() > 0 {
        lemma_split_lines_len(s.drop_first());
    }
}

/// Prepending newline-free text extends the first line.
pub proof fn lemma_split_lines_prefix(t: Seq<char>, u: Seq<char>)
    requires
        forall|m: int| 0 <= m < t.len() ==> #[trigger] t[m] != '\n',
    ensures
        spec_split_lines(t + u) == seq![t + spec_split_lines(u)[0]] + spec_split_lines(
            u,
        ).drop_first(),
    decreases t.len(),
{
    lemma_split_lines_len(u);
    if t.len() == 0 {
        assert(t + u =~= u);
        let lu = spec_split_lines(u);
        assert(t + lu[0] =~= lu[0]);
        assert(seq![lu[0]] + lu.drop_first() =~= lu);
    } else {
        let s = t + u;
        assert(s[0] == t[0]);
        assert(s[0] != '\n');
        assert(s.drop_first() =~= t.drop_first() + u);
        lemma_split_lines_prefix(t.drop_first(), u);
        let rest = spec_split_lines(s.drop_first());
        assert(rest[0] == t.drop_first() + spec_split_lines(u)[0]);
        assert(seq![s[0]] + rest[0] =~= t + spec_split_lines(u)[0]);
        assert(rest.drop_first() =~= spec_split_lines(u).drop_first());
    }
}

/// Lines joined by single newlines.
pub open spec fn join_nl(lines: Seq<Seq<char>>) -> Seq<char>
    decreases lines.len(),
{
    if lines.len() == 0 {
        Seq::empty()
    } else if lines.len() == 1 {
        lines[0]
    } else {
        lines[0] + seq!['\n'] + join_nl(lines.drop_first())
    }
}

/// Splitting lines joined by newlines recovers the lines.
pub proof fn lemma_lines_join(lines: Seq<Seq<char>>)
    requires
        lines.len() >= 1,
        forall|i: int, m: int|
            0 <= i < lines.len() && 0 <= m < lines[i].len() ==> #[trigger] lines[i][m] != '\n',
    ensures
        spec_split_lines(join_nl(lines)) == lines,
    decreases lines.len(),
{
    let s = join_nl(lines);
    if lines.len() == 1 {
        assert(forall|m: int| 0 <= m < lines[0].len() ==> #[trigger] lines[0][m] != '\n');
        lemma_split_lines_prefix(lines[0], Seq::<char>::empty());
        assert(lines[0] + Seq::<char>::empty() =~= lines[0]);
        assert(lines[0] + spec_split_lines(Seq::<char>::empty())[0] =~= lines[0]);
        assert(spec_split_lines(s) =~= lines);
    } else {
        let t0 = lines[0];
        let rest = lines.drop_first();
        lemma_lines_join(rest);
        let u = seq!['\n'] + join_nl(rest);
        assert(s =~= t0 + u);
        assert(forall|m: int| 0 <= m < t0.len() ==> #[trigger] t0[m] != '\n');
        lemma_split_lines_prefix(t0, u);
        assert(u[0] == '\n');
        assert(u.drop_first() =~= join_nl(rest));
        assert(spec_split_lines(u) == seq![Seq::<char>::empty()] + spec_split_lines(join_nl(rest)));
        assert(spec_split_lines(u)[0] =~= Seq::<char>::empty());
        assert(t0 + spec_split_lines(u)[0] =~= t0);
        assert(spec_split_lines(u).drop_first() =~= rest);
        assert(spec_split_lines(s) =~= lines);
    }
}

/// Splits a text into its lines.
pub fn split_lines(s: &str) -> (r: Vec<String>)
    ensures
        r@.map_values(|t: String| t@) == spec_split_lines(s@),
{
    let n = s.unicode_len();
    let mut r: Vec<String> = Vec::new();
    let mut start: usize = 0;
    let mut i: usize = 0;
    proof {
        assert(s@.skip(0) =~= s@);
        assert(r@.map_values(|t: String| t@) + spec_split_lines(s@.skip(0)) =~= spec_split_lines(
            s@,
        ));
    }
    while i < n
        invariant
            0 <= start <= i <= n,
            n == s@.len(),
            forall|m: int| start <= m < i ==> #[trigger] s@[m] != '\n',
            spec_split_lines(s@) == r@.map_values(|t: String| t@) + spec_split_lines(
                s@.skip(start as int),
            ),
        decreases n - i,
    {
        let c = s.get_char(i);
        if c == '\n' {
            let t = String::from_str(s.substring_char(start, i));
            proof {
                let tail = s@.skip(start as int);
                assert(t@ =~= s@.subrange(start as int, i as int));
                assert(tail =~= t@ + s@.skip(i as int));
                lemma_split_lines_prefix(t@, s@.skip(i as int));
                assert(s@.skip(i as int)[0] == '\n');
                assert(s@.skip(i as int).drop_first() =~= s@.skip(i + 1));
                assert(spec_split_lines(s@.skip(i as int)) == seq![Seq::<char>::empty()]
                    + spec_split_lines(s@.skip(i + 1)));
                assert(spec_split_lines(s@.skip(i as int))[0] =~= Seq::<char>::empty());
                assert(t@ + spec_split_lines(s@.skip(i as int))[0] =~= t@);
                assert(spec_split_lines(s@.skip(i as int)).drop_first() =~= spec_split_lines(
                    s@.skip(i + 1),
                ));
                assert(spec_split_lines(tail) == seq![t@] + spec_split_lines(s@.skip(i + 1)));
                assert((r@ + seq![t]).map_values(|x: String| x@) =~= r@.map_values(|x: String| x@)
                    + seq![t@]);
            }
            r.push(t);
            start = i + 1;
        }
        i = i + 1;
    }
    let t = String::from_str(s.substring_char(start, n));
    proof {
        let tail = s@.skip(start as int);
        assert(t@ =~= s@.subrange(start as int, n as int));
        assert(tail =~= t@ + Seq::<char>::empty());
        lemma_split_lines_prefix(t@, Seq::<char>::empty());
        assert(t@ + spec_split_lines(Seq::<char>::empty())[0] =~= t@);
        assert(spec_split_lines(tail) =~= seq![t@]);
        assert((r@ + seq![t]).map_values(|x: String| x@) =~= r@.map_values(|x: String| x@)
            + seq![t@]);
    }
    r.push(t);
    proof {
        assert(r@.map_values(|x: String| x@) =~= spec_split_lines(s@));
    }
    r
}

pub open spec fn spec_trim_left(s: Seq<char>) -> Seq<char>
    decreases s.len(),
{
    if s.len() > 0 && is_ws(s[0]) {
        spec_trim_left(s.drop_first())
    } else {
        s
    }
}

pub open spec fn spec_trim_right(s: Seq<char>) -> Seq<char>
    decreases s.len(),
{
    if s.len() > 0 && is_ws(s.last()) {
        spec_trim_right(s.drop_last())
    } else {
        s
    }
}

/// The text with leading and trailing whitespace removed.
pub open spec fn spec_trim(s: Seq<char>) -> Seq<char> {
    spec_trim_right(spec_trim_left(s))
}

proof fn lemma_trim_left_skip(s: Seq<char>, a: int)
    requires
        0 <= a <= s.len(),
        forall|m: int| 0 <= m < a ==> is_ws(#[trigger] s[m]),
        a == s.len() || !is_ws(s[a]),
    ensures
        spec_trim_left(s) == s.skip(a),
    decreases a,
{
    if a == 0 {
        assert(s.skip(0) =~= s);
    } else {
        assert(s.drop_first() =~= s.skip(1));
        lemma_trim_left_skip(s.skip(1), a - 1);
        assert(s.skip(1).skip(a - 1) =~= s.skip(a));
    }
}

proof fn lemma_trim_right_take(s: Seq<char>, e: int)
    requires
        0 <= e <= s.len(),
        forall|m: int| e <= m < s.len() ==> is_ws(#[trigger] s[m]),
        e == 0 || !is_ws(s[e - 1]),
    ensures
        spec_trim_right(s) == s.take(e),
    decreases s.len(),
{
    if e < s.len() {
        assert(is_ws(s.last()));
        lemma_trim_right_take(s.drop_last(), e);
        assert(s.drop_last().take(e) =~= s.take(e));
    } else {
        assert(s.take(e) =~= s);
    }
}

fn scan_non_ws(s: &str, i: usize, n: usize) -> (a: usize)
    requires
        n == s@.len(),
        i <= n,
        forall|m: int| 0 <= m < i ==> is_ws(#[trigger] s@[m]),
    ensures
        i <= a <= n,
        forall|m: int| 0 <= m < a ==> is_ws(#[trigger] s@[m]),
        a == n || !is_ws(s@[a as int]),
    decreases n - i,
{
    if i == n {
        return n;
    }
    let c = s.get_char(i);
    if c == ' ' || c == '\t' || c == '\r' {
        scan_non_ws(s, i + 1, n)
    } else {
        i
    }
}

fn scan_end_non_ws(s: &str, j: usize) -> (e: usize)
    requires
        j <= s@.len(),
        forall|m: int| j <= m < s@.len() ==> is_ws(#[trigger] s@[m]),
    ensures
        e <= j,
        forall|m: int| e <= m < s@.len() ==> is_ws(#[trigger] s@[m]),
        e == 0 || !is_ws(s@[e - 1]),
    decreases j,
{
    if j == 0 {
        return 0;
    }
    let c = s.get_char(j - 1);
    if c == ' ' || c == '\t' || c == '\r' {
        scan_end_non_ws(s, j - 1)
    } else {
        j
    }
}

/// The text with leading and trailing whitespace removed.
pub fn trim<'a>(s: &'a str) -> (r: &'a str)
    ensures
        r@ == spec_trim(s@),
{
    let n = s.unicode_len();
    let a = scan_non_ws(s, 0, n);
    let e = scan_end_non_ws(s, n);
    proof {
        lemma_trim_left_skip(s@, a as int);
    }
    if e <= a {
        proof {
            let t = s@.skip(a as int);
            assert(forall|m: int| 0 <= m < t.len() ==> is_ws(#[trigger] t[m]));
            lemma_trim_right_take(t, 0);
            assert(t.take(0) =~= s@.subrange(a as int, a as int));
        }
        s.substring_char(a, a)
    } else {
        proof {
            let t = s@.skip(a as int);
            assert(forall|m: int| e - a <= m < t.len() ==> is_ws(#[trigger] t[m]));
            assert(!is_ws(t[e - a - 1]));
            lemma_trim_right_take(t, e - a);
            assert(t.take(e - a) =~= s@.subrange(a as int, e as int));
        }
        s.substring_char(a, e)
    }
}

pub open spec fn is_sign(c: char) -> bool {
    c == '+' || c == '-'
}

pub open spec fn is_exp_mark(c: char) -> bool {
    c == 'e' || c == 'E'
}

/// One step of the decimal-number scanner. States: 0 start, 1 after
/// sign, 2 integer digits, 3 dot without prior digits, 4 digits after
/// the dot, 5 after the exponent mark, 6 after the exponent sign,
/// 7 exponent digits; -1 rejects.
pub open spec fn float_step(st: int, c: char) -> int {
    if st == 0 {
        if is_sign(c) {
            1
        } else if is_digit(c) {
            2
        } else if c == '.' {
            3
        } else {
            -1
        }
    } else if st == 1 {
        if is_digit(c) {
            2
        } else if c == '.' {
            3
        } else {
            -1
        }
    } else if st == 2 {
        if is_digit(c) {
            2
        } else if c == '.' {
            4
        } else if is_exp_mark(c) {
            5
        } else {
            -1
        }
    } else if st == 3 {
        if is_digit(c) {
            4
        } else {
            -1
        }
    } else if st == 4 {
        if is_digit(c) {
            4
        } else if is_exp_mark(c) {
            5
        } else {
            -1
        }
    } else if st == 5 {
        if is_sign(c) {
            6
        } else if is_digit(c) {
            7
        } else {
            -1
        }
    } else if st == 6 || st == 7 {
        if is_digit(c) {
            7
        } else {
            -1
        }
    } else {
        -1
    }
}

pub open spec fn float_run(s: Seq<char>, i: int) -> int
    decreases i,
{
    if i <= 0 {
        0
    } else {
        float_step(float_run(s, i - 1), s[i - 1])
    }
}

/// A decimal floating-point field: optional sign, digits with an
/// optional point (at least one digit), and an optional exponent part.
pub open spec fn is_float_token(s: Seq<char>) -> bool {
    s.len() > 0 && {
        let st = float_run(s, s.len() as int);
        st == 2 || st == 4 || st == 7
    }
}

fn float_step_exec(st: i32, c: char) -> (r: i32)
    ensures
        r as int == float_step(st as int, c),
{
    let u = c as u32;
    let digit = 48 <= u && u <= 57;
    let sign = c == '+' || c == '-';
    let exp = c == 'e' || c == 'E';
    if st == 0 {
        if sign {
            1
        } else if digit {
            2
        } else if c == '.' {
            3
        } else {
            -1
        }
    } else if st == 1 {
        if digit {
            2
        } else if c == '.' {
            3
        } else {
            -1
        }
    } else if st == 2 {
        if digit {
            2
        } else if c == '.' {
            4
        } else if exp {
            5
        } else {
            -1
        }
    } else if st == 3 {
        if digit {
            4
        } else {
            -1
        }
    } else if st == 4 {
        if digit {
            4
        } else if exp {
            5
        } else {
            -1
        }
    } else if st == 5 {
        if sign {
            6
        } else if digit {
            7
        } else {
            -1
        }
    } else if st == 6 || st == 7 {
        if digit {
            7
        } else {
            -1
        }
    } else {
        -1
    }
}

/// Whether a field reads as a decimal floating-point number.
pub fn is_float_str(s: &str) -> (r: bool)
    ensures
        r == is_float_token(s@),
{
    let n = s.unicode_len();
    if n == 0 {
        return false;
    }
    let mut st: i32 = 0;
    let mut i: usize = 0;
    while i < n
        invariant
            0 <= i <= n,
            n == s@.len(),
            st as int == float_run(s@, i as int),
        decreases n - i,
    {
        st = float_step_exec(st, s.get_char(i));
        i = i + 1;
    }
    st == 2 || st == 4 || st == 7
}

/// A decimal integer field: optional sign, then at least one digit.
pub open spec fn is_int_token(s: Seq<char>) -> bool {
    s.len() > 0 && (if is_sign(s[0]) {
        s.len() > 1 && all_digits(s.drop_first())
    } else {
        all_digits(s)
    })
}

/// Whether a field reads as a decimal integer.
pub fn is_int_str(s: &str) -> (r: bool)
    ensures
        r == is_int_token(s@),
{
    let n = s.unicode_len();
    if n == 0 {
        return false;
    }
    let c0 = s.get_char(0);
    let start: usize = if c0 == '+' || c0 == '-' {
        1
    } else {
        0
    };
    if start == n {
        return false;
    }
    let mut i: usize = start;
    while i < n
        invariant
            start <= i <= n,
            n == s@.len(),
            start == (if is_sign(s@[0]) {
                1int
            } else {
                0int
            }),
            forall|m: int| start <= m < i ==> is_digit(#[trigger] s@[m]),
        decreases n - i,
    {
        let u = s.get_char(i) as u32;
        if u < 48 || u > 57 {
            proof {
                if start == 1 {
                    assert(s@.drop_first()[i - 1] == s@[i as int]);
                }
            }
            return false;
        }
        i = i + 1;
    }
    proof {
        if start == 1 {
            assert(forall|m: int|
                0 <= m < s@.drop_first().len() ==> is_digit(#[trigger] s@.drop_first()[m]));
        }
    }
    true
}

/// Whether the sequence of atom ids contains the given id.
pub fn contains_id(v: &Vec<usize>, x: usize) -> (r: bool)
    ensures
        r == v@.contains(x),
{
    let n = v.len();
    let mut i: usize = 0;
    while i < n
        invariant
            0 <= i <= n,
            n == v@.len(),
            forall|j: int| 0 <= j < i ==> v@[j] != x,
        decreases n - i,
    {
        if v[i] == x {
            return true;
        }
        i = i + 1;
    }
    false
}

pub proof fn lemma_join_sp_push(s: Seq<Seq<char>>, x: Seq<char>)
    requires
        s.len() >= 1,
    ensures
        join_sp(s.push(x)) == join_sp(s) + seq![' '] + x,
    decreases s.len(),
{
    if s.len() == 1 {
        assert(s.push(x).drop_first() =~= seq![x]);
        assert(join_sp(seq![x]) == x);
        assert(join_sp(s.push(x)) =~= s[0] + seq![' '] + x);
    } else {
        assert(s.push(x).drop_first() =~= s.drop_first().push(x));
        lemma_join_sp_push(s.drop_first(), x);
        assert(join_sp(s.push(x)) =~= join_sp(s) + seq![' '] + x);
    }
}

pub proof fn lemma_join_nl_push(s: Seq<Seq<char>>, x: Seq<char>)
    requires
        s.len() >= 1,
    ensures
        join_nl(s.push(x)) == join_nl(s) + seq!['\n'] + x,
    decreases s.len(),
{
    if s.len() == 1 {
        assert(s.push(x).drop_first() =~= seq![x]);
        assert(join_nl(seq![x]) == x);
        assert(join_nl(s.push(x)) =~= s[0] + seq!['\n'] + x);
    } else {
        assert(s.push(x).drop_first() =~= s.drop_first().push(x));
        lemma_join_nl_push(s.drop_first(), x);
        assert(join_nl(s.push(x)) =~= join_nl(s) + seq!['\n'] + x);
    }
}

/// Joins fields with single spaces.
pub fn join_tokens(v: &Vec<String>) -> (r: String)
    ensures
        r@ == join_sp(v@.map_values(|t: String| t@)),
{
    let mut r = String::new();
    let n = v.len();
    let mut i: usize = 0;
    proof {
        assert(v@.map_values(|t: String| t@).take(0) =~= Seq::<Seq<char>>::empty());
    }
    while i < n
        invariant
            0 <= i <= n,
            n == v@.len(),
            r@ == join_sp(v@.map_values(|t: String| t@).take(i as int)),
        decreases n - i,
    {
        proof {
            let m = v@.map_values(|t: String| t@);
            if i > 0 {
                lemma_join_sp_push(m.take(i as int), m[i as int]);
            }
            assert(m.take(i as int).push(m[i as int]) =~= m.take(i + 1));
        }
        if i > 0 {
            r.append(" ");
            proof {
                reveal_strlit(" ");
                assert(" "@ =~= seq![' ']);
            }
        }
        r.append(v[i].as_str());
        i = i + 1;
    }
    proof {
        assert(v@.map_values(|t: String| t@).take(n as int) =~= v@.map_values(|t: String| t@));
    }
    r
}

/// Joins lines with single newlines.
pub fn join_lines(v: &Vec<String>) -> (r: String)
    ensures
        r@ == join_nl(v@.map_values(|t: String| t@)),
{
    let mut r = String::new();
    let n = v.len();
    let mut i: usize = 0;
    proof {
        assert(v@.map_values(|t: String| t@).take(0) =~= Seq::<Seq<char>>::empty());
    }
    while i < n
        invariant
            0 <= i <= n,
            n == v@.len(),
            r@ == join_nl(v@.map_values(|t: String| t@).take(i as int)),
        decreases n - i,
    {
        proof {
            let m = v@.map_values(|t: String| t@);
            if i > 0 {
                lemma_join_nl_push(m.take(i as int), m[i as int]);
            }
            assert(m.take(i as int).push(m[i as int]) =~= m.take(i + 1));
        }
        if i > 0 {
            r.append("\n");
            proof {
                reveal_strlit("\n");
                assert("\n"@ =~= seq!['\n']);
            }
        }
        r.append(v[i].as_str());
        i = i + 1;
    }
    proof {
        assert(v@.map_values(|t: String| t@).take(n as int) =~= v@.map_values(|t: String| t@));
    }
    r
}

/// Character-wise string equality.
pub fn str_eq(a: &str, b: &str) -> (r: bool)
    ensures
        r == (a@ == b@),
{
    let na = a.unicode_len();
    let nb = b.unicode_len();
    if na != nb {
        return false;
    }
    let mut i: usize = 0;
    while i < na
        invariant
            0 <= i <= na,
            na == a@.len(),
            na == b@.len(),
            forall|j: int| 0 <= j < i ==> a@[j] == b@[j],
        decreases na - i,
    {
        if a.get_char(i) != b.get_char(i) {
            return false;
        }
        i = i + 1;
    }
    proof {
        assert(a@ =~= b@);
    }
    true
}


/// Equal concatenations with the same left part have the same right
/// part.
pub proof fn lemma_concat_cancel_left(a: Seq<char>, b: Seq<char>, c: Seq<char>)
    requires
        a + b == a + c,
    ensures
        b == c,
{
    assert((a + b).len() == a.len() + b.len());
    assert((a + c).len() == a.len() + c.len());
    assert(b.len() == c.len());
    assert forall|m: int| 0 <= m < b.len() implies b[m] == c[m] by {
        assert(0 <= a.len() + m < (a + b).len());
        assert((a + b)[a.len() + m] == b[m]);
        assert((a + b)[a.len() + m] == (a + c)[a.len() + m]);
        assert((a + c)[a.len() + m] == c[m]);
    }
    assert(b =~= c);
}

} // verus!
