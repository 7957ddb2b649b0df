//! Character-level helpers: conversions between strings and character
//! vectors, decimal numerals, and substring replacement.

use vstd::prelude::*;

verus! {

/// `String::push` appends one character at the end of the string and leaves
/// the characters before it as they were.
pub assume_specification[ String::push ](s: &mut String, c: char)
    ensures
        final(s)@ == old(s)@.push(c),
;

/// The characters of a string, in order.
pub fn to_chars(s: &str) -> (v: Vec<char>)
    ensures
        v@ == s@,
{
    let mut v: Vec<char> = Vec::new();
    for c in it: s.chars()
        invariant
            v@ == it.seq().take(it.index() as int),
            it.seq() == s@,
    {
        v.push(c);
    }
    v
}

/// The string made of the given characters, in order.
pub fn to_text(v: &Vec<char>) -> (s: String)
    ensures
        s@ == v@,
{
    let mut s = String::new();
    let mut i: usize = 0;
    while i < v.len()
        invariant
            i <= v.len(),
            s@ == v@.take(i as int),
        decreases v.len() - i,
    {
        s.push(v[i]);
        i += 1;
    }
    s
}

/// The decimal digit for a value below ten.
pub open spec fn digit_char(d: nat) -> char {
    if d == 0 {
        '0'
    } else if d == 1 {
        '1'
    } else if d == 2 {
        '2'
    } else if d == 3 {
        '3'
    } else if d == 4 {
        '4'
    } else if d == 5 {
        '5'
    } else if d == 6 {
        '6'
    } else if d == 7 {
        '7'
    } else if d == 8 {
        '8'
    } else {
        '9'
    }
}

/// Whether a character is one of `0` to `9`.
pub open spec fn is_digit(c: char) -> bool {
    c == '0' || c == '1' || c == '2' || c == '3' || c == '4' || c == '5' || c == '6' || c == '7'
        || c == '8' || c == '9'
}

/// The value of a decimal digit; zero for any other character.
pub open spec fn digit_value(c: char) -> nat {
    if c == '1' {
        1
    } else if c == '2' {
        2
    } else if c == '3' {
        3
    } else if c == '4' {
        4
    } else if c == '5' {
        5
    } else if c == '6' {
        6
    } else if c == '7' {
        7
    } else if c == '8' {
        8
    } else if c == '9' {
        9
    } else {
        0
    }
}

/// The decimal numeral of a number: no sign, no leading zero except for zero
/// itself.
pub open spec fn decimal(n: nat) -> Seq<char>
    decreases n,
{
    if n < 10 {
        seq![digit_char(n)]
    } else {
        decimal(n / 10).push(digit_char(n % 10))
    }
}

/// The number that a run of decimal digits denotes.
pub open spec fn digits_value(s: Seq<char>) -> nat
    decreases s.len(),
{
    if s.len() == 0 {
        0
    } else {
        digits_value(s.drop_last()) * 10 + digit_value(s.last())
    }
}

/// Whether every character of the sequence is a decimal digit.
pub open spec fn all_digits(s: Seq<char>) -> bool {
    forall|i: int| 0 <= i < s.len() ==> is_digit(#[trigger] s[i])
}

/// A decimal numeral is a non-empty run of digits.
pub proof fn lemma_decimal_is_digits(n: nat)
    ensures
        decimal(n).len() >= 1,
        all_digits(decimal(n)),
    decreases n,
{
    if n >= 10 {
        lemma_decimal_is_digits(n / 10);
    }
}

/// Reading a decimal numeral back gives the number it was written from.
pub proof fn lemma_decimal_value(n: nat)
    ensures
        digits_value(decimal(n)) == n,
    decreases n,
{
    if n < 10 {
        assert(decimal(n).drop_last() =~= Seq::<char>::empty());
        assert(digits_value(Seq::<char>::empty()) == 0);
    } else {
        lemma_decimal_value(n / 10);
        assert(decimal(n).drop_last() =~= decimal(n / 10));
    }
}

fn digit(d: u64) -> (c: char)
    requires
        d < 10,
    ensures
        c == digit_char(d as nat),
{
    if d == 0 {
        '0'
    } else if d == 1 {
        '1'
    } else if d == 2 {
        '2'
    } else if d == 3 {
        '3'
    } else if d == 4 {
        '4'
    } else if d == 5 {
        '5'
    } else if d == 6 {
        '6'
    } else if d == 7 {
        '7'
    } else if d == 8 {
        '8'
    } else {
        '9'
    }
}

/// Appends the decimal numeral of `n` to `out`.
pub fn push_decimal(out: &mut Vec<char>, n: u64)
    ensures
        final(out)@ == old(out)@ + decimal(n as nat),
    decreases n,
{
    if n >= 10 {
        push_decimal(out, n / 10);
    }
    out.push(digit(n % 10));
}

/// The decimal numeral of `n` as a string.
pub fn decimal_string(n: u64) -> (s: String)
    ensures
        s@ == decimal(n as nat),
{
    let mut out: Vec<char> = Vec::new();
    push_decimal(&mut out, n);
    to_text(&out)
}

/// Appends every character of `extra` to `out`.
pub fn push_all(out: &mut Vec<char>, extra: &Vec<char>)
    ensures
        final(out)@ == old(out)@ + extra@,
{
    let mut i: usize = 0;
    while i < extra.len()
        invariant
            i <= extra.len(),
            out@ == old(out)@ + extra@.take(i as int),
        decreases extra.len() - i,
    {
        out.push(extra[i]);
        i += 1;
    }
}

/// Appends every character of the string `extra` to `out`.
pub fn push_str(out: &mut Vec<char>, extra: &str)
    ensures
        final(out)@ == old(out)@ + extra@,
{
    let chars = to_chars(extra);
    push_all(out, &chars);
}

/// Whether `text` begins with `pat`.
pub open spec fn has_prefix(text: Seq<char>, pat: Seq<char>) -> bool {
    pat.len() <= text.len() && text.subrange(0, pat.len() as int) == pat
}

/// Whether `pat` occurs somewhere in `text`.
pub open spec fn occurs_in(text: Seq<char>, pat: Seq<char>) -> bool {
    exists|i: int| 0 <= i <= text.len() && has_prefix(#[trigger] text.skip(i), pat)
}

/// `text` with every occurrence of `pat` replaced by `rep`, reading from the
/// left; an occurrence that overlaps an earlier one is not replaced, and the
/// inserted text is not searched again. An empty `pat` leaves `text` as it is.
pub open spec fn replace_all(text: Seq<char>, pat: Seq<char>, rep: Seq<char>) -> Seq<char>
    decreases text.len(),
{
    if pat.len() == 0 || text.len() == 0 {
        text
    } else if has_prefix(text, pat) {
        rep + replace_all(text.skip(pat.len() as int), pat, rep)
    } else {
        seq![text[0]] + replace_all(text.skip(1), pat, rep)
    }
}

/// Replacing a pattern that does not occur changes nothing.
pub proof fn lemma_replace_absent(text: Seq<char>, pat: Seq<char>, rep: Seq<char>)
    requires
        !occurs_in(text, pat),
    ensures
        replace_all(text, pat, rep) == text,
    decreases text.len(),
{
    if pat.len() == 0 || text.len() == 0 {
    } else {
        assert(text.skip(0) =~= text);
        let rest = text.skip(1);
        assert forall|i: int| 0 <= i <= rest.len() implies !has_prefix(
            #[trigger] rest.skip(i),
            pat,
        ) by {
            assert(rest.skip(i) =~= text.skip(i + 1));
        }
        lemma_replace_absent(rest, pat, rep);
    }
}

/// Whether an occurrence of `pat` in `text` overlaps the stretch from `from`
/// to `to`. For an empty stretch: whether an occurrence lies across the
/// position.
pub open spec fn overlaps(text: Seq<char>, pat: Seq<char>, from: int, to: int) -> bool {
    exists|i: int|
        0 <= i <= text.len() && i < to && i + pat.len() > from && has_prefix(
            #[trigger] text.skip(i),
            pat,
        )
}

/// A text can be replaced in two parts, if no occurrence of the pattern
/// lies across the cut.
pub proof fn lemma_replace_split(u: Seq<char>, v: Seq<char>, pat: Seq<char>, rep: Seq<char>)
    requires
        !overlaps(u + v, pat, u.len() as int, u.len() as int),
    ensures
        replace_all(u + v, pat, rep) == replace_all(u, pat, rep) + replace_all(v, pat, rep),
    decreases u.len(),
{
    let t = u + v;
    if pat.len() == 0 {
    } else if u.len() == 0 {
        assert(t =~= v);
        assert(replace_all(u, pat, rep) + replace_all(v, pat, rep) =~= replace_all(v, pat, rep));
    } else {
        assert(t.skip(0) =~= t);
        let k: int = if has_prefix(t, pat) {
            pat.len() as int
        } else {
            1
        };
        if has_prefix(t, pat) {
            if pat.len() > u.len() {
                assert(has_prefix(t.skip(0), pat));
                assert(overlaps(t, pat, u.len() as int, u.len() as int));
            }
            assert(u.subrange(0, pat.len() as int) =~= t.subrange(0, pat.len() as int));
            assert(has_prefix(u, pat));
        } else {
            if has_prefix(u, pat) {
                assert(t.subrange(0, pat.len() as int) =~= u.subrange(0, pat.len() as int));
            }
            assert(t[0] == u[0]);
        }
        let rest = u.skip(k);
        assert(t.skip(k) =~= rest + v);
        assert(!overlaps(rest + v, pat, rest.len() as int, rest.len() as int)) by {
            if overlaps(rest + v, pat, rest.len() as int, rest.len() as int) {
                let i = choose|i: int|
                    0 <= i <= (rest + v).len() && i < rest.len() && i + pat.len() > rest.len()
                        && has_prefix(#[trigger] (rest + v).skip(i), pat);
                assert((rest + v).skip(i) =~= t.skip(i + k));
                assert(has_prefix(t.skip(i + k), pat));
                assert(overlaps(t, pat, u.len() as int, u.len() as int));
            }
        }
        lemma_replace_split(rest, v, pat, rep);
        if has_prefix(t, pat) {
            assert(replace_all(t, pat, rep) =~= replace_all(u, pat, rep) + replace_all(
                v,
                pat,
                rep,
            ));
        } else {
            assert(replace_all(t, pat, rep) =~= replace_all(u, pat, rep) + replace_all(
                v,
                pat,
                rep,
            ));
        }
    }
}

/// A stretch of text in which no occurrence of the pattern begins stays as
/// it is.
pub proof fn lemma_replace_head(w: Seq<char>, v: Seq<char>, pat: Seq<char>, rep: Seq<char>)
    requires
        forall|i: int| 0 <= i < w.len() ==> !has_prefix(#[trigger] (w + v).skip(i), pat),
    ensures
        replace_all(w + v, pat, rep) == w + replace_all(v, pat, rep),
    decreases w.len(),
{
    let t = w + v;
    if w.len() == 0 {
        assert(t =~= v);
        assert(w + replace_all(v, pat, rep) =~= replace_all(v, pat, rep));
    } else if pat.len() == 0 {
    } else {
        assert(t.skip(0) =~= t);
        assert(!has_prefix(t, pat));
        let rest = w.skip(1);
        assert(t.skip(1) =~= rest + v);
        assert forall|i: int| 0 <= i < rest.len() implies !has_prefix(
            #[trigger] (rest + v).skip(i),
            pat,
        ) by {
            assert((rest + v).skip(i) =~= t.skip(i + 1));
        }
        lemma_replace_head(rest, v, pat, rep);
        assert(seq![t[0]] + (rest + replace_all(v, pat, rep)) =~= w + replace_all(v, pat, rep));
    }
}

/// A stretch of text that no occurrence of the pattern overlaps stays as it
/// is, and what stands before and behind it is replaced as if it stood
/// alone.
pub proof fn lemma_replace_around(
    u: Seq<char>,
    w: Seq<char>,
    v: Seq<char>,
    pat: Seq<char>,
    rep: Seq<char>,
)
    requires
        !overlaps(u + w + v, pat, u.len() as int, (u.len() + w.len()) as int),
    ensures
        replace_all(u + w + v, pat, rep) == replace_all(u, pat, rep) + w + replace_all(
            v,
            pat,
            rep,
        ),
{
    let t = u + w + v;
    if pat.len() == 0 {
    } else {
        assert(t =~= u + (w + v));
        assert(!overlaps(u + (w + v), pat, u.len() as int, u.len() as int)) by {
            if overlaps(u + (w + v), pat, u.len() as int, u.len() as int) {
                let i = choose|i: int|
                    0 <= i <= t.len() && i < u.len() && i + pat.len() > u.len() && has_prefix(
                        #[trigger] (u + (w + v)).skip(i),
                        pat,
                    );
                assert(has_prefix(t.skip(i), pat));
                assert(overlaps(t, pat, u.len() as int, (u.len() + w.len()) as int));
            }
        }
        lemma_replace_split(u, w + v, pat, rep);
        assert forall|i: int| 0 <= i < w.len() implies !has_prefix(
            #[trigger] (w + v).skip(i),
            pat,
        ) by {
            assert((w + v).skip(i) =~= t.skip(i + u.len()));
            if has_prefix(t.skip(i + u.len()), pat) {
                assert(overlaps(t, pat, u.len() as int, (u.len() + w.len()) as int));
            }
        }
        lemma_replace_head(w, v, pat, rep);
        assert(replace_all(u, pat, rep) + (w + replace_all(v, pat, rep)) =~= replace_all(
            u,
            pat,
            rep,
        ) + w + replace_all(v, pat, rep));
    }
}

/// An occurrence of the pattern across whose start no other occurrence lies
/// is replaced as a whole, and what stands before and behind it is replaced
/// as if it stood alone.
pub proof fn lemma_replace_occurrence(u: Seq<char>, v: Seq<char>, pat: Seq<char>, rep: Seq<char>)
    requires
        pat.len() > 0,
        !overlaps(u + pat + v, pat, u.len() as int, u.len() as int),
    ensures
        replace_all(u + pat + v, pat, rep) == replace_all(u, pat, rep) + rep + replace_all(
            v,
            pat,
            rep,
        ),
{
    let t = u + pat + v;
    assert(t =~= u + (pat + v));
    lemma_replace_split(u, pat + v, pat, rep);
    let tail = pat + v;
    assert(tail.subrange(0, pat.len() as int) =~= pat);
    assert(tail.skip(pat.len() as int) =~= v);
    assert(replace_all(tail, pat, rep) == rep + replace_all(v, pat, rep));
    assert(replace_all(u, pat, rep) + (rep + replace_all(v, pat, rep)) =~= replace_all(
        u,
        pat,
        rep,
    ) + rep + replace_all(v, pat, rep));
}

/// Whether `pat` stands in `text` at position `at`.
pub fn matches_at(text: &Vec<char>, at: usize, pat: &Vec<char>) -> (b: bool)
    requires
        at <= text.len(),
    ensures
        b == has_prefix(text@.skip(at as int), pat@),
{
    if pat.len() > text.len() - at {
        return false;
    }
    let mut j: usize = 0;
    while j < pat.len()
        invariant
            at <= text.len(),
            pat.len() <= text.len() - at,
            j <= pat.len(),
            forall|k: int| 0 <= k < j ==> text@[at + k] == pat@[k],
        decreases pat.len() - j,
    {
        if text[at + j] != pat[j] {
            return false;
        }
        j += 1;
    }
    assert(text@.skip(at as int).subrange(0, pat@.len() as int) =~= pat@);
    true
}

/// Whether `pat` occurs somewhere in `text`.
pub fn contains_chars(text: &Vec<char>, pat: &Vec<char>) -> (b: bool)
    ensures
        b == occurs_in(text@, pat@),
{
    let mut i: usize = 0;
    while i < text.len()
        invariant
            i <= text.len(),
            forall|k: int| 0 <= k < i ==> !has_prefix(#[trigger] text@.skip(k), pat@),
        decreases text.len() - i,
    {
        if matches_at(text, i, pat) {
            return true;
        }
        i += 1;
    }
    matches_at(text, i, pat)
}

/// Replaces every occurrence of `pat` in `text` by `rep`, in one pass from
/// the left.
pub fn replace_chars(text: &Vec<char>, pat: &Vec<char>, rep: &Vec<char>) -> (out: Vec<char>)
    ensures
        out@ == replace_all(text@, pat@, rep@),
{
    let mut out: Vec<char> = Vec::new();
    let mut i: usize = 0;
    if pat.len() == 0 {
        push_all(&mut out, text);
        return out;
    }
    assert(text@.skip(0) =~= text@);
    while i < text.len()
        invariant
            i <= text.len(),
            pat.len() > 0,
            out@ + replace_all(text@.skip(i as int), pat@, rep@) == replace_all(
                text@,
                pat@,
                rep@,
            ),
        decreases text.len() - i,
    {
        let ghost rest = text@.skip(i as int);
        if matches_at(text, i, pat) {
            push_all(&mut out, rep);
            proof {
                assert(rest.skip(pat@.len() as int) =~= text@.skip(i + pat@.len()));
            }
            i += pat.len();
        } else {
            out.push(text[i]);
            proof {
                assert(rest.skip(1) =~= text@.skip(i + 1));
            }
            i += 1;
        }
    }
    out
}

/// The parts one after another, with the separator between neighbours.
pub open spec fn join_text(parts: Seq<Seq<char>>, sep: Seq<char>) -> Seq<char>
    decreases parts.len(),
{
    if parts.len() == 0 {
        Seq::<char>::empty()
    } else if parts.len() == 1 {
        parts[0]
    } else {
        join_text(parts.drop_last(), sep) + sep + parts.last()
    }
}

/// Joins the parts with the separator between neighbours.
pub fn join(parts: &Vec<String>, sep: &str) -> (r: String)
    ensures
        r@ == join_text(parts.deep_view(), sep@),
{
    let mut out: Vec<char> = Vec::new();
    let mut i: usize = 0;
    while i < parts.len()
        invariant
            i <= parts.len(),
            out@ == join_text(parts.deep_view().take(i as int), sep@),
        decreases parts.len() - i,
    {
        let ghost before = parts.deep_view().take(i as int);
        let ghost now = parts.deep_view().take(i + 1);
        proof {
            assert(now.drop_last() =~= before);
        }
        if i > 0 {
            push_str(&mut out, sep);
        }
        push_str(&mut out, parts[i].as_str());
        proof {
            if i == 0 {
            }
        }
        i += 1;
    }
    assert(parts.deep_view().take(i as int) =~= parts.deep_view());
    to_text(&out)
}

/// The number of decimal digits that stand in a row from position `from`.
pub open spec fn digit_run(text: Seq<char>, from: int) -> nat
    decreases text.len() - from,
{
    if 0 <= from < text.len() && is_digit(text[from]) {
        1 + digit_run(text, from + 1)
    } else {
        0
    }
}

/// The identifier that a run of digits denotes, if it fits an identifier.
pub open spec fn token_id(digits: Seq<char>) -> Option<u64> {
    if digits_value(digits) <= u64::MAX {
        Some(digits_value(digits) as u64)
    } else {
        None
    }
}

/// A stretch of digits that ends at the end of the text or at a character
/// that is no digit is the whole run of digits from its start.
pub proof fn lemma_digit_run(text: Seq<char>, start: int, end: int)
    requires
        0 <= start <= end <= text.len(),
        forall|k: int| start <= k < end ==> is_digit(#[trigger] text[k]),
        end == text.len() || !is_digit(text[end]),
    ensures
        digit_run(text, start) == end - start,
    decreases end - start,
{
    if start < end {
        lemma_digit_run(text, start + 1, end);
    }
}

/// The value of a digit, if the character is one.
pub fn digit_of(c: char) -> (r: Option<u64>)
    ensures
        match r {
            Some(d) => is_digit(c) && d == digit_value(c) && d < 10,
            None => !is_digit(c),
        },
{
    if c == '0' {
        Some(0)
    } else if c == '1' {
        Some(1)
    } else if c == '2' {
        Some(2)
    } else if c == '3' {
        Some(3)
    } else if c == '4' {
        Some(4)
    } else if c == '5' {
        Some(5)
    } else if c == '6' {
        Some(6)
    } else if c == '7' {
        Some(7)
    } else if c == '8' {
        Some(8)
    } else if c == '9' {
        Some(9)
    } else {
        None
    }
}

/// Reads the digits that stand in a row from position `start`: where the
/// run ends, and the identifier it denotes if it fits one.
pub fn scan_digits(text: &Vec<char>, start: usize) -> (r: (usize, Option<u64>))
    requires
        start <= text.len(),
    ensures
        r.0 == start + digit_run(text@, start as int),
        r.0 <= text.len(),
        r.1 == token_id(text@.subrange(start as int, r.0 as int)),
{
    let n = text.len();
    let mut j: usize = start;
    let mut id: Option<u64> = Some(0);
    loop
        invariant
            start <= j <= n,
            n == text.len(),
            forall|k: int| start <= k < j ==> is_digit(#[trigger] text@[k]),
            id == token_id(text@.subrange(start as int, j as int)),
        ensures
            start <= j <= n,
            forall|k: int| start <= k < j ==> is_digit(#[trigger] text@[k]),
            j == n || !is_digit(text@[j as int]),
            id == token_id(text@.subrange(start as int, j as int)),
        decreases n - j,
    {
        if j >= n {
            break;
        }
        let d = match digit_of(text[j]) {
            Some(d) => d,
            None => {
                break;
            },
        };
        proof {
            let run = text@.subrange(start as int, j as int);
            let next = text@.subrange(start as int, j + 1);
            assert(next.drop_last() =~= run);
        }
        id = match id {
            Some(v) => {
                if v > 1844674407370955161u64 {
                    None
                } else if v * 10 > u64::MAX - d {
                    None
                } else {
                    Some(v * 10 + d)
                }
            },
            None => None,
        };
        j += 1;
    }
    proof {
        lemma_digit_run(text@, start as int, j as int);
    }
    (j, id)
}

/// The identifier that a text denotes: a run of decimal digits, one at
/// least, whose value fits an identifier; one plus sign may stand in front
/// of the digits.
pub open spec fn parsed_id(text: Seq<char>) -> Option<u64> {
    let body = if text.len() > 0 && text[0] == '+' {
        text.skip(1)
    } else {
        text
    };
    if body.len() > 0 && digit_run(body, 0) == body.len() {
        token_id(body)
    } else {
        None
    }
}

/// Reads an identifier written in decimal, with or without a plus sign in
/// front.
pub fn parse_id(value: &str) -> (r: Option<u64>)
    ensures
        r == parsed_id(value@),
{
    let mut text = to_chars(value);
    if text.len() > 0 && text[0] == '+' {
        text.remove(0);
        assert(text@ =~= value@.skip(1));
    }
    let (end, id) = scan_digits(&text, 0);
    if end == 0 || end != text.len() {
        None
    } else {
        assert(text@.subrange(0, end as int) =~= text@);
        id
    }
}

} // verus!
