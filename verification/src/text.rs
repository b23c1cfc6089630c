//! Character-level text helpers: equality, conversion between strings and
//! character vectors, decimal rendering and parsing, and splitting.
use vstd::prelude::*;

verus! {

/// Whether two strings hold the same characters.
pub(crate) fn str_eq(a: &str, b: &str) -> (r: bool)
    ensures
        r == (a@ == b@),
{
    let x = String::from_str(a);
    let y = String::from_str(b);
    x == y
}

/// `String::push`: appends one character.
#[verifier::external_body]
pub(crate) fn push_char(s: &mut String, c: char)
    ensures
        final(s)@ == old(s)@.push(c),
{
    s.push(c)
}

/// The characters of `s`, in order.
pub fn chars_of(s: &str) -> (v: Vec<char>)
    ensures
        v@ == s@,
{
    broadcast use vstd::string::group_string_axioms;
    let mut v: Vec<char> = Vec::new();
    for c in it: s.chars()
        invariant
            it.seq() == s@,
            v@ == it.seq().take(it.index()),
    {
        assert(it.seq().take(it.index() + 1) =~= it.seq().take(it.index()).push(c));
        v.push(c);
    }
    assert(v@.len() == s@.len());
    assert(v@ =~= s@);
    v
}

/// A string holding the characters `v[from..to]`.
pub fn string_from_chars(v: &Vec<char>, from: usize, to: usize) -> (s: String)
    requires
        from <= to <= v@.len(),
    ensures
        s@ == v@.subrange(from as int, to as int),
{
    let mut s = String::new();
    let mut i = from;
    while i < to
        invariant
            from <= i <= to <= v@.len(),
            s@ == v@.subrange(from as int, i as int),
        decreases to - i,
    {
        push_char(&mut s, v[i]);
        assert(v@.subrange(from as int, i + 1) == v@.subrange(from as int, i as int).push(v@[i as int]));
        i = i + 1;
    }
    s
}

pub open spec fn digit_char(d: nat) -> char {
    (d + 48) as char
}

/// Decimal digits of `n`, most significant first, without leading zeros.
pub open spec fn decimal(n: nat) -> Seq<char>
    decreases n,
{
    if n < 10 {
        seq![digit_char(n)]
    } else {
        decimal(n / 10).push(digit_char(n % 10))
    }
}

/// Decimal rendering of a signed integer, with `-` before negative values.
pub open spec fn signed_decimal(n: int) -> Seq<char> {
    if n < 0 {
        seq!['-'] + decimal((-n) as nat)
    } else {
        decimal(n as nat)
    }
}

/// Appends the decimal digits of `n` to `s`.
pub fn push_decimal(s: &mut String, n: u64)
    ensures
        final(s)@ == old(s)@ + decimal(n as nat),
    decreases n,
{
    if n >= 10 {
        push_decimal(s, n / 10);
    }
    let d: u64 = n % 10;
    let c: char = if d == 0 { '0' } else if d == 1 { '1' } else if d == 2 { '2' } else if d == 3 { '3' }
        else if d == 4 { '4' } else if d == 5 { '5' } else if d == 6 { '6' } else if d == 7 { '7' }
        else if d == 8 { '8' } else { '9' };
    assert(c == digit_char(d as nat));
    push_char(s, c);
    proof {
        if n >= 10 {
            assert(old(s)@ + decimal(n as nat) =~= old(s)@ + decimal((n / 10) as nat) + seq![c]);
        } else {
            assert(old(s)@ + decimal(n as nat) =~= old(s)@ + seq![c]);
        }
    }
}

/// Decimal rendering of an `i64`, as `i64::to_string` writes it.
pub fn i64_to_string(n: i64) -> (s: String)
    ensures
        s@ == signed_decimal(n as int),
{
    let mut s = String::new();
    if n < 0 {
        push_char(&mut s, '-');
        let m: u64 = if n == i64::MIN { 9223372036854775808u64 } else { (-n) as u64 };
        push_decimal(&mut s, m);
        assert(s@ =~= seq!['-'] + decimal((-n) as nat));
    } else {
        push_decimal(&mut s, n as u64);
        assert(s@ =~= decimal(n as nat));
    }
    s
}

pub open spec fn is_digit(c: char) -> bool {
    '0' <= c && c <= '9'
}

pub open spec fn all_digits(s: Seq<char>) -> bool {
    forall|i: int| 0 <= i < s.len() ==> is_digit(#[trigger] s[i])
}

/// The number written by a string of decimal digits.
pub open spec fn digits_value(s: Seq<char>) -> nat
    decreases s.len(),
{
    if s.len() == 0 {
        0
    } else {
        digits_value(s.drop_last()) * 10 + ((s.last() as nat) - 48) as nat
    }
}

/// What `str::parse::<u16>` gives: an optional `+` followed by one or more
/// decimal digits whose value fits in a `u16`.
pub open spec fn parse_u16_spec(s: Seq<char>) -> Option<u16> {
    let d = if s.len() > 0 && s[0] == '+' { s.drop_first() } else { s };
    if d.len() > 0 && all_digits(d) && digits_value(d) <= 65535 {
        Some(digits_value(d) as u16)
    } else {
        None
    }
}

proof fn lemma_digits_value_grows(s: Seq<char>, i: int)
    requires
        0 <= i <= s.len(),
        all_digits(s),
    ensures
        digits_value(s.take(i)) <= digits_value(s),
    decreases s.len() - i,
{
    if i < s.len() {
        lemma_digits_value_grows(s, i + 1);
        assert(s.take(i + 1).drop_last() =~= s.take(i));
    } else {
        assert(s.take(i) =~= s);
    }
}

/// Parses a port number as `str::parse::<u16>` does.
pub fn parse_u16(s: &str) -> (r: Option<u16>)
    ensures
        r == parse_u16_spec(s@),
{
    let v = chars_of(s);
    let n = v.len();
    let start: usize = if n > 0 && v[0] == '+' { 1 } else { 0 };
    let ghost d = if s@.len() > 0 && s@[0] == '+' { s@.drop_first() } else { s@ };
    assert(d =~= v@.subrange(start as int, n as int));
    if start == n {
        return None;
    }
    let mut value: u32 = 0;
    let mut i = start;
    while i < n
        invariant
            start <= i <= n == v@.len(),
            d == v@.subrange(start as int, n as int),
            d == (if s@.len() > 0 && s@[0] == '+' { s@.drop_first() } else { s@ }),
            all_digits(v@.subrange(start as int, i as int)),
            value as nat == digits_value(v@.subrange(start as int, i as int)),
            value <= 65535,
        decreases n - i,
    {
        let c = v[i];
        assert(v@.subrange(start as int, i + 1).drop_last() =~= v@.subrange(start as int, i as int));
        if c < '0' || c > '9' {
            assert(d[i - start] == c);
            assert(!is_digit(d[i - start]));
            assert(!all_digits(d));
            return None;
        }
        let dv: u32 = (c as u32) - 48;
        let ghost prev = value;
        value = value * 10 + dv;
        assert(digits_value(v@.subrange(start as int, i + 1)) == digits_value(v@.subrange(start as int, i as int)) * 10 + ((c as nat) - 48) as nat);
        assert(value as nat == digits_value(v@.subrange(start as int, i + 1)));
        assert(all_digits(v@.subrange(start as int, i + 1))) by {
            assert forall|k: int| 0 <= k < i + 1 - start implies is_digit(#[trigger] v@.subrange(start as int, i + 1)[k]) by {
                if k < i - start {
                    assert(v@.subrange(start as int, i + 1)[k] == v@.subrange(start as int, i as int)[k]);
                }
            }
        }
        if value > 65535 {
            proof {
                let rest = v@.subrange(start as int, n as int);
                if all_digits(rest) {
                    assert(rest.take(i + 1 - start) =~= v@.subrange(start as int, i + 1));
                    lemma_digits_value_grows(rest, i + 1 - start);
                }
            }
            return None;
        }
        i = i + 1;
    }
    Some(value as u16)
}

/// `decimal(n)` is a nonempty string of digits that reads back as `n`.
pub proof fn lemma_decimal_reads_back(n: nat)
    ensures
        decimal(n).len() > 0,
        all_digits(decimal(n)),
        digits_value(decimal(n)) == n,
        decimal(n)[0] != '+',
    decreases n,
{
    if n < 10 {
        assert(((n + 48) as char) as nat == n + 48);
        assert(decimal(n).drop_last() =~= seq![]);
        assert(digits_value(decimal(n)) == digits_value(decimal(n).drop_last()) * 10 + ((decimal(n).last() as nat) - 48) as nat);
        assert(digits_value(decimal(n)) == n);
    }
    if n >= 10 {
        lemma_decimal_reads_back(n / 10);
        let d = decimal(n);
        assert(d.drop_last() =~= decimal(n / 10));
        let r: nat = n % 10;
        assert(((r + 48) as char) as nat == r + 48);
        assert(d.last() == digit_char(r));
        assert(digits_value(d) == digits_value(decimal(n / 10)) * 10 + ((d.last() as nat) - 48) as nat);
        assert(digits_value(d) == (n / 10) * 10 + r);
        assert forall|i: int| 0 <= i < d.len() implies is_digit(#[trigger] d[i]) by {
            if i < d.len() - 1 {
                assert(d[i] == decimal(n / 10)[i]);
            }
        }
    }
}

/// Splitting with the separator `sep`: the finished parts and the part being
/// read, after reading all of `s` from left to right.
pub open spec fn split_state(s: Seq<char>, sep: char) -> (Seq<Seq<char>>, Seq<char>)
    decreases s.len(),
{
    if s.len() == 0 {
        (seq![], seq![])
    } else {
        let (parts, cur) = split_state(s.drop_last(), sep);
        if s.last() == sep {
            (parts.push(cur), seq![])
        } else {
            (parts, cur.push(s.last()))
        }
    }
}

/// The pieces of `s` between occurrences of `sep`, as `str::split` yields them.
pub open spec fn split_spec(s: Seq<char>, sep: char) -> Seq<Seq<char>> {
    split_state(s, sep).0.push(split_state(s, sep).1)
}

/// The pieces of `s` between occurrences of `sep`.
pub fn split_chars(s: &Vec<char>, sep: char) -> (parts: Vec<String>)
    ensures
        parts@.len() == split_spec(s@, sep).len(),
        forall|i: int| 0 <= i < parts@.len() ==> #[trigger] parts@[i]@ == split_spec(s@, sep)[i],
{
    let mut parts: Vec<String> = Vec::new();
    let mut start: usize = 0;
    let mut i: usize = 0;
    let n = s.len();
    while i < n
        invariant
            n == s@.len(),
            start <= i <= n,
            parts@.len() == split_state(s@.take(i as int), sep).0.len(),
            forall|k: int| 0 <= k < parts@.len() ==> #[trigger] parts@[k]@ == split_state(s@.take(i as int), sep).0[k],
            s@.subrange(start as int, i as int) == split_state(s@.take(i as int), sep).1,
        decreases n - i,
    {
        assert(s@.take(i + 1).drop_last() =~= s@.take(i as int));
        if s[i] == sep {
            let p = string_from_chars(s, start, i);
            parts.push(p);
            start = i + 1;
            assert(s@.subrange(start as int, i + 1) =~= Seq::<char>::empty());
        } else {
            assert(s@.subrange(start as int, i + 1) =~= s@.subrange(start as int, i as int).push(s@[i as int]));
        }
        i = i + 1;
    }
    assert(s@.take(n as int) =~= s@);
    let last = string_from_chars(s, start, n);
    parts.push(last);
    parts
}

/// Joins `parts` with `sep` between consecutive parts.
pub open spec fn join_spec(parts: Seq<Seq<char>>, sep: char) -> Seq<char>
    decreases parts.len(),
{
    if parts.len() == 0 {
        seq![]
    } else if parts.len() == 1 {
        parts[0]
    } else {
        join_spec(parts.drop_last(), sep).push(sep) + parts.last()
    }
}

proof fn lemma_split_state_join(s: Seq<char>, sep: char)
    ensures
        join_spec(split_state(s, sep).0.push(split_state(s, sep).1), sep) == s,
        forall|i: int| 0 <= i < split_state(s, sep).0.len()
            ==> !(#[trigger] split_state(s, sep).0[i]).contains(sep),
        !split_state(s, sep).1.contains(sep),
    decreases s.len(),
{
    if s.len() > 0 {
        let t = s.drop_last();
        lemma_split_state_join(t, sep);
        let (parts, cur) = split_state(t, sep);
        if s.last() == sep {
            let np = parts.push(cur);
            assert(np.push(seq![]).drop_last() =~= np);
            assert(np.drop_last() =~= parts);
            assert(join_spec(np.push(seq![]), sep) =~= join_spec(np, sep).push(sep));
            if np.len() > 1 {
                assert(join_spec(np, sep) == join_spec(parts, sep).push(sep) + cur);
            }
            assert(join_spec(np, sep) =~= t);
            assert(s =~= t.push(sep));
            assert(!seq![].contains(sep));
        } else {
            let nc = cur.push(s.last());
            let all_old = parts.push(cur);
            let all_new = parts.push(nc);
            assert(all_new.drop_last() =~= parts);
            assert(all_old.drop_last() =~= parts);
            if parts.len() == 0 {
                assert(join_spec(all_new, sep) =~= nc);
                assert(join_spec(all_old, sep) =~= cur);
            } else {
                assert(join_spec(all_new, sep) =~= join_spec(parts, sep).push(sep) + nc);
                assert(join_spec(all_old, sep) =~= join_spec(parts, sep).push(sep) + cur);
            }
            assert(s =~= t.push(s.last()));
            assert forall|j: int| 0 <= j < nc.len() implies nc[j] != sep by {
                if j < cur.len() {
                    assert(nc[j] == cur[j]);
                }
            }
        }
    }
}

/// Splitting and joining again with the same separator gives the text back,
/// and no piece holds the separator.
pub proof fn lemma_split_join(s: Seq<char>, sep: char)
    ensures
        join_spec(split_spec(s, sep), sep) == s,
        forall|i: int| 0 <= i < split_spec(s, sep).len() ==> !(#[trigger] split_spec(s, sep)[i]).contains(sep),
{
    lemma_split_state_join(s, sep);
    let (parts, cur) = split_state(s, sep);
    assert forall|i: int| 0 <= i < split_spec(s, sep).len() implies !(#[trigger] split_spec(s, sep)[i]).contains(sep) by {
        if i < parts.len() {
            assert(split_spec(s, sep)[i] == parts[i]);
        }
    }
}

} // verus!

verus! {

/// Lexicographic order on character sequences (the order of `String`'s `Ord`).
pub open spec fn lex_le(a: Seq<char>, b: Seq<char>) -> bool
    decreases a.len(),
{
    if a.len() == 0 {
        true
    } else if b.len() == 0 {
        false
    } else if a[0] != b[0] {
        a[0] < b[0]
    } else {
        lex_le(a.drop_first(), b.drop_first())
    }
}

pub proof fn lemma_lex_total(a: Seq<char>, b: Seq<char>)
    ensures
        lex_le(a, b) || lex_le(b, a),
    decreases a.len(),
{
    if a.len() > 0 && b.len() > 0 && a[0] == b[0] {
        lemma_lex_total(a.drop_first(), b.drop_first());
    }
}

pub proof fn lemma_lex_trans(a: Seq<char>, b: Seq<char>, c: Seq<char>)
    requires
        lex_le(a, b),
        lex_le(b, c),
    ensures
        lex_le(a, c),
    decreases a.len(),
{
    if a.len() > 0 && b.len() > 0 && c.len() > 0 && a[0] == b[0] && b[0] == c[0] {
        lemma_lex_trans(a.drop_first(), b.drop_first(), c.drop_first());
    }
}

/// Whether `a` comes no later than `b` in lexicographic order.
pub fn str_le(a: &str, b: &str) -> (r: bool)
    ensures
        r == lex_le(a@, b@),
{
    let x = chars_of(a);
    let y = chars_of(b);
    let mut i: usize = 0;
    assert(x@.skip(0) =~= x@);
    assert(y@.skip(0) =~= y@);
    while i < x.len() && i < y.len()
        invariant
            x@ == a@,
            y@ == b@,
            i <= x@.len(),
            i <= y@.len(),
            lex_le(x@, y@) == lex_le(x@.skip(i as int), y@.skip(i as int)),
        decreases x@.len() - i,
    {
        assert(x@.skip(i as int).drop_first() =~= x@.skip(i + 1));
        assert(y@.skip(i as int).drop_first() =~= y@.skip(i + 1));
        assert(x@.skip(i as int)[0] == x@[i as int]);
        assert(y@.skip(i as int)[0] == y@[i as int]);
        let c1 = x[i];
        let c2 = y[i];
        if c1 != c2 {
            let lt = c1 < c2;
            assert(lex_le(x@.skip(i as int), y@.skip(i as int)) == (c1 < c2));
            assert(lex_le(x@, y@) == lt);
            return lt;
        }
        i = i + 1;
    }
    assert(x@.skip(i as int).len() == 0 || y@.skip(i as int).len() == 0);
    x.len() - i == 0
}

/// The texts of a sequence of strings.
pub open spec fn texts(v: Seq<String>) -> Seq<Seq<char>> {
    v.map_values(|s: String| s@)
}

pub open spec fn lex_sorted(s: Seq<Seq<char>>) -> bool {
    forall|i: int, j: int| 0 <= i < j < s.len() ==> lex_le(#[trigger] s[i], #[trigger] s[j])
}

/// `v` in lexicographic order, as `Vec::sort` leaves a vector of strings.
pub fn sort_strings(v: Vec<String>) -> (r: Vec<String>)
    ensures
        lex_sorted(texts(r@)),
        texts(r@).to_multiset() == texts(v@).to_multiset(),
{
    broadcast use vstd::seq_lib::group_to_multiset_ensures;
    let mut r: Vec<String> = Vec::new();
    let n = v.len();
    let mut i: usize = 0;
    assert(texts(r@) =~= texts(v@.take(0)));
    while i < n
        invariant
            n == v@.len(),
            i <= n,
            lex_sorted(texts(r@)),
            texts(r@).to_multiset() == texts(v@.take(i as int)).to_multiset(),
        decreases n - i,
    {
        let x = v[i].clone();
        let mut p: usize = 0;
        while p < r.len() && str_le(r[p].as_str(), x.as_str())
            invariant
                p <= r@.len(),
                forall|q: int| 0 <= q < p ==> lex_le(#[trigger] r@[q]@, x@),
            decreases r@.len() - p,
        {
            p = p + 1;
        }
        let ghost old_t = texts(r@);
        r.insert(p, x);
        proof {
            let t = texts(r@);
            assert(t =~= old_t.insert(p as int, x@));
            assert forall|a: int, b: int| 0 <= a < b < t.len() implies lex_le(#[trigger] t[a], #[trigger] t[b]) by {
                if a < p && b == p {
                    assert(t[a] == old_t[a]);
                } else if a < p && b > p {
                    assert(t[a] == old_t[a]);
                    assert(t[b] == old_t[b - 1]);
                    assert(lex_le(old_t[a], old_t[b - 1]));
                } else if a == p {
                    assert(t[b] == old_t[b - 1]);
                    assert(!lex_le(old_t[p as int], x@));
                    lemma_lex_total(old_t[p as int], x@);
                    if b - 1 > p {
                        assert(lex_le(old_t[p as int], old_t[b - 1]));
                        lemma_lex_trans(x@, old_t[p as int], old_t[b - 1]);
                    }
                } else if a > p {
                    assert(t[a] == old_t[a - 1]);
                    assert(t[b] == old_t[b - 1]);
                    assert(lex_le(old_t[a - 1], old_t[b - 1]));
                } else {
                    assert(t[a] == old_t[a]);
                    assert(t[b] == old_t[b]);
                    assert(lex_le(old_t[a], old_t[b]));
                }
            }
            assert(texts(v@.take(i + 1)) =~= texts(v@.take(i as int)).push(x@));
            vstd::seq_lib::to_multiset_insert(old_t, p as int, x@);
            vstd::seq_lib::to_multiset_build(texts(v@.take(i as int)), x@);
        }
        i = i + 1;
    }
    assert(v@.take(n as int) =~= v@);
    r
}

} // verus!
