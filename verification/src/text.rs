//! Text helpers shared by the front end, the interpreter and the stores:
//! decimal rendering of integers, character-level comparison and building of strings.

use vstd::prelude::*;

verus! {

/// Appends one character to a string (`String::push`).
#[verifier::external_body]
pub(crate) fn push_char(s: &mut String, c: char)
    ensures
        final(s)@ == old(s)@.push(c),
{
    s.push(c);
}

/// An owned copy of `s`.
pub fn owned(s: &str) -> (r: String)
    ensures
        r@ == s@,
{
    proof { broadcast use vstd::string::group_string_axioms; }
    s.to_string()
}

/// The digit character for a value below ten.
pub open spec fn digit_char(d: nat) -> char {
    if d == 0 { '0' } else if d == 1 { '1' } else if d == 2 { '2' } else if d == 3 { '3' }
    else if d == 4 { '4' } else if d == 5 { '5' } else if d == 6 { '6' } else if d == 7 { '7' }
    else if d == 8 { '8' } else { '9' }
}

/// Decimal notation of a natural number, without leading zeros.
pub open spec fn nat_text(n: nat) -> Seq<char>
    decreases n,
{
    if n < 10 {
        seq![digit_char(n)]
    } else {
        nat_text(n / 10).push(digit_char(n % 10))
    }
}

/// Decimal notation of an integer, with a leading `-` when it is negative.
pub open spec fn int_text(i: int) -> Seq<char> {
    if i < 0 {
        seq!['-'] + nat_text((-i) as nat)
    } else {
        nat_text(i as nat)
    }
}

fn digit_to_char(d: u64) -> (c: char)
    requires
        d < 10,
    ensures
        c == digit_char(d as nat),
{
    if d == 0 { '0' } else if d == 1 { '1' } else if d == 2 { '2' } else if d == 3 { '3' }
    else if d == 4 { '4' } else if d == 5 { '5' } else if d == 6 { '6' } else if d == 7 { '7' }
    else if d == 8 { '8' } else { '9' }
}

/// Appends the decimal notation of `n` to `out`.
pub fn append_u64(out: &mut String, n: u64)
    ensures
        final(out)@ == old(out)@ + nat_text(n as nat),
    decreases n,
{
    if n < 10 {
        push_char(out, digit_to_char(n));
        assert(nat_text(n as nat) == seq![digit_char(n as nat)]);
    } else {
        append_u64(out, n / 10);
        push_char(out, digit_to_char(n % 10));
        assert(old(out)@ + nat_text((n / 10) as nat) + seq![digit_char((n % 10) as nat)]
            =~= old(out)@ + nat_text(n as nat));
    }
}

/// Appends the decimal notation of `i` (with `-` when negative) to `out`.
pub fn append_i64(out: &mut String, i: i64)
    ensures
        final(out)@ == old(out)@ + int_text(i as int),
{
    if i < 0 {
        push_char(out, '-');
        let mag: u64 = if i == i64::MIN { 9223372036854775808u64 } else { (-i) as u64 };
        append_u64(out, mag);
        assert(old(out)@.push('-') + nat_text(mag as nat) =~= old(out)@ + (seq!['-'] + nat_text(mag as nat)));
    } else {
        append_u64(out, i as u64);
    }
}

/// Appends the characters of `s` to `out`.
pub fn append_str(out: &mut String, s: &str)
    ensures
        final(out)@ == old(out)@ + s@,
{
    out.append(s);
}

/// Lexicographic order on character sequences by code point, shorter prefix first.
pub open spec fn seq_lex_lt(a: Seq<char>, b: Seq<char>) -> bool
    decreases a.len(),
{
    if a.len() == 0 {
        b.len() > 0
    } else if b.len() == 0 {
        false
    } else if a[0] == b[0] {
        seq_lex_lt(a.drop_first(), b.drop_first())
    } else {
        (a[0] as int) < (b[0] as int)
    }
}

/// The characters of a string, in order.
pub fn chars_of(s: &str) -> (v: Vec<char>)
    ensures
        v@ == s@,
{
    let n = s.unicode_len();
    let mut v: Vec<char> = Vec::new();
    let mut i: usize = 0;
    while i < n
        invariant
            n == s@.len(),
            i <= n,
            v@ == s@.take(i as int),
        decreases n - i,
    {
        let c = s.get_char(i);
        v.push(c);
        i = i + 1;
        assert(v@ =~= s@.take(i as int));
    }
    assert(s@.take(n as int) =~= s@);
    v
}

/// Whether two strings hold the same characters.
pub fn str_eq(a: &str, b: &str) -> (r: bool)
    ensures
        r == (a@ == b@),
{
    let n = a.unicode_len();
    let m = b.unicode_len();
    if n != m {
        return false;
    }
    let mut i: usize = 0;
    while i < n
        invariant
            n == a@.len(),
            n == b@.len(),
            i <= n,
            a@.take(i as int) == b@.take(i as int),
        decreases n - i,
    {
        if a.get_char(i) != b.get_char(i) {
            assert(a@[i as int] != b@[i as int]);
            return false;
        }
        assert(a@.take((i + 1) as int) =~= a@.take(i as int).push(a@[i as int]));
        assert(b@.take((i + 1) as int) =~= b@.take(i as int).push(b@[i as int]));
        i = i + 1;
    }
    assert(a@ =~= a@.take(n as int));
    assert(b@ =~= b@.take(n as int));
    true
}

proof fn lemma_lex_lt_common_prefix(a: Seq<char>, b: Seq<char>, k: int)
    requires
        0 <= k <= a.len(),
        k <= b.len(),
        a.take(k) == b.take(k),
    ensures
        seq_lex_lt(a, b) == seq_lex_lt(a.skip(k), b.skip(k)),
    decreases k,
{
    if k > 0 {
        assert(a[0] == a.take(k)[0]);
        assert(b[0] == b.take(k)[0]);
        assert(a.drop_first().take(k - 1) =~= a.take(k).drop_first());
        assert(b.drop_first().take(k - 1) =~= b.take(k).drop_first());
        lemma_lex_lt_common_prefix(a.drop_first(), b.drop_first(), k - 1);
        assert(a.drop_first().skip(k - 1) =~= a.skip(k));
        assert(b.drop_first().skip(k - 1) =~= b.skip(k));
    } else {
        assert(a.skip(0) =~= a);
        assert(b.skip(0) =~= b);
    }
}

/// Whether `a` comes strictly before `b` in lexicographic order.
pub fn str_lt(a: &str, b: &str) -> (r: bool)
    ensures
        r == seq_lex_lt(a@, b@),
{
    let n = a.unicode_len();
    let m = b.unicode_len();
    let mut i: usize = 0;
    while i < n && i < m
        invariant
            n == a@.len(),
            m == b@.len(),
            i <= n,
            i <= m,
            a@.take(i as int) == b@.take(i as int),
        decreases n - i,
    {
        let ca = a.get_char(i);
        let cb = b.get_char(i);
        if ca != cb {
            proof {
                lemma_lex_lt_common_prefix(a@, b@, i as int);
                assert(a@.skip(i as int)[0] == ca);
                assert(b@.skip(i as int)[0] == cb);
            }
            return (ca as u32) < (cb as u32);
        }
        assert(a@.take((i + 1) as int) =~= a@.take(i as int).push(a@[i as int]));
        assert(b@.take((i + 1) as int) =~= b@.take(i as int).push(b@[i as int]));
        i = i + 1;
    }
    proof {
        lemma_lex_lt_common_prefix(a@, b@, i as int);
    }
    i == n && i < m
}

/// No sequence comes before itself.
pub proof fn lemma_lex_irreflexive(a: Seq<char>)
    ensures
        !seq_lex_lt(a, a),
    decreases a.len(),
{
    if a.len() > 0 {
        lemma_lex_irreflexive(a.drop_first());
    }
}

/// The lexicographic order is transitive.
pub proof fn lemma_lex_transitive(a: Seq<char>, b: Seq<char>, c: Seq<char>)
    requires
        seq_lex_lt(a, b),
        seq_lex_lt(b, c),
    ensures
        seq_lex_lt(a, c),
    decreases a.len(),
{
    if a.len() > 0 && b.len() > 0 && c.len() > 0 && a[0] == b[0] && b[0] == c[0] {
        lemma_lex_transitive(a.drop_first(), b.drop_first(), c.drop_first());
    }
}

/// Of two different sequences, one comes before the other.
pub proof fn lemma_lex_total(a: Seq<char>, b: Seq<char>)
    requires
        a != b,
    ensures
        seq_lex_lt(a, b) || seq_lex_lt(b, a),
    decreases a.len(),
{
    if a.len() > 0 && b.len() > 0 {
        if a[0] == b[0] {
            if a.drop_first() == b.drop_first() {
                assert(a =~= seq![a[0]] + a.drop_first());
                assert(b =~= seq![b[0]] + b.drop_first());
            }
            lemma_lex_total(a.drop_first(), b.drop_first());
        } else {
            assert((a[0] as int) != (b[0] as int));
        }
    } else if a.len() == 0 && b.len() == 0 {
        assert(a =~= b);
    }
}

/// Whether `s` begins with `p`.
pub open spec fn has_prefix(s: Seq<char>, p: Seq<char>) -> bool {
    p.len() <= s.len() && s.subrange(0, p.len() as int) == p
}

/// Whether `s` begins with `p`.
pub fn str_starts_with(s: &str, p: &str) -> (r: bool)
    ensures
        r == has_prefix(s@, p@),
{
    let n = s.unicode_len();
    let m = p.unicode_len();
    if m > n {
        return false;
    }
    let mut i: usize = 0;
    while i < m
        invariant
            n == s@.len(),
            m == p@.len(),
            m <= n,
            i <= m,
            s@.subrange(0, i as int) == p@.subrange(0, i as int),
        decreases m - i,
    {
        if s.get_char(i) != p.get_char(i) {
            assert(s@.subrange(0, m as int)[i as int] != p@[i as int]);
            return false;
        }
        assert(s@.subrange(0, i + 1) =~= s@.subrange(0, i as int).push(s@[i as int]));
        assert(p@.subrange(0, i + 1) =~= p@.subrange(0, i as int).push(p@[i as int]));
        i = i + 1;
    }
    assert(p@.subrange(0, m as int) =~= p@);
    true
}

/// The segments joined with `sep`.
pub open spec fn join_with(segs: Seq<Seq<char>>, sep: char) -> Seq<char>
    decreases segs.len(),
{
    if segs.len() == 0 {
        Seq::empty()
    } else if segs.len() == 1 {
        segs[0]
    } else {
        join_with(segs.drop_last(), sep) + seq![sep] + segs.last()
    }
}

/// The strings of a vector, by their characters.
pub open spec fn strings_chars(v: Seq<String>) -> Seq<Seq<char>> {
    v.map_values(|s: String| s@)
}

/// Appends the strings joined with `sep`.
pub fn append_joined(out: &mut String, parts: &Vec<String>, sep: char)
    ensures
        final(out)@ == old(out)@ + join_with(strings_chars(parts@), sep),
{
    let ghost start = out@;
    let n = parts.len();
    let mut i: usize = 0;
    while i < n
        invariant
            n == parts@.len(),
            i <= n,
            out@ == start + join_with(strings_chars(parts@).take(i as int), sep),
        decreases n - i,
    {
        let ghost segs = strings_chars(parts@);
        assert(segs.take((i + 1) as int).drop_last() =~= segs.take(i as int));
        if i > 0 {
            push_char(out, sep);
        }
        append_str(out, parts[i].as_str());
        i = i + 1;
        proof {
            if i == 1 {
                assert(segs.take(1) =~= seq![segs[0]]);
                assert(out@ =~= start + join_with(segs.take(1), sep));
            } else {
                assert(out@ =~= start + join_with(segs.take(i as int), sep));
            }
        }
    }
    assert(strings_chars(parts@).take(n as int) =~= strings_chars(parts@));
}

/// The pieces of `s` between the occurrences of `sep`, as `str::split` gives them: one
/// piece more than there are separators, empty pieces included.
pub open spec fn split_on(s: Seq<char>, sep: char) -> Seq<Seq<char>>
    decreases s.len(),
{
    if s.len() == 0 {
        seq![Seq::<char>::empty()]
    } else {
        let d = split_on(s.drop_last(), sep);
        if s.last() == sep {
            d.push(Seq::<char>::empty())
        } else {
            d.update(d.len() - 1, d.last().push(s.last()))
        }
    }
}

/// The pieces of `s` between the occurrences of `sep`.
pub fn split_str(s: &str, sep: char) -> (v: Vec<String>)
    ensures
        strings_chars(v@) == split_on(s@, sep),
{
    let chars = chars_of(s);
    let mut parts: Vec<String> = Vec::new();
    let mut cur = String::new();
    let mut i: usize = 0;
    assert(s@.take(0) =~= Seq::<char>::empty());
    assert(strings_chars(parts@).push(cur@) =~= split_on(s@.take(0), sep));
    while i < chars.len()
        invariant
            chars@ == s@,
            i <= chars@.len(),
            strings_chars(parts@).push(cur@) == split_on(s@.take(i as int), sep),
        decreases chars@.len() - i,
    {
        let c = chars[i];
        let ghost d = strings_chars(parts@).push(cur@);
        proof {
            assert(s@.take(i + 1).drop_last() =~= s@.take(i as int));
            assert(s@.take(i + 1).last() == c);
        }
        if c == sep {
            parts.push(cur);
            cur = String::new();
            assert(strings_chars(parts@).push(cur@) =~= d.push(Seq::<char>::empty()));
        } else {
            let ghost before = cur@;
            push_char(&mut cur, c);
            assert(strings_chars(parts@).push(cur@) =~= d.update(d.len() - 1, before.push(c)));
        }
        i = i + 1;
    }
    assert(s@.take(chars@.len() as int) =~= s@);
    parts.push(cur);
    parts
}

/// The characters hold no `:`.
pub open spec fn colon_free(s: Seq<char>) -> bool {
    forall|k: int| 0 <= k < s.len() ==> s[k] != ':'
}

/// Keys joined by `:`: `prefix:a:b:c` with `a`, `b` and `c` free of `:` determines
/// `prefix`, `a`, `b` and `c`.
pub proof fn lemma_colon_key_injective(
    p1: Seq<char>, a1: Seq<char>, b1: Seq<char>, c1: Seq<char>,
    p2: Seq<char>, a2: Seq<char>, b2: Seq<char>, c2: Seq<char>,
)
    requires
        colon_free(a1), colon_free(b1), colon_free(c1),
        colon_free(a2), colon_free(b2), colon_free(c2),
        p1 + ":"@ + a1 + ":"@ + b1 + ":"@ + c1 == p2 + ":"@ + a2 + ":"@ + b2 + ":"@ + c2,
    ensures
        p1 == p2,
        a1 == a2,
        b1 == b2,
        c1 == c2,
{
    lemma_split_last_colon(p1 + ":"@ + a1 + ":"@ + b1, c1, p2 + ":"@ + a2 + ":"@ + b2, c2);
    lemma_split_last_colon(p1 + ":"@ + a1, b1, p2 + ":"@ + a2, b2);
    lemma_split_last_colon(p1, a1, p2, a2);
}

/// `p:x` with `x` free of `:` determines `p` and `x`.
pub proof fn lemma_split_last_colon(p1: Seq<char>, x1: Seq<char>, p2: Seq<char>, x2: Seq<char>)
    requires
        colon_free(x1),
        colon_free(x2),
        p1 + ":"@ + x1 == p2 + ":"@ + x2,
    ensures
        p1 == p2,
        x1 == x2,
{
    reveal_strlit(":");
    let l = p1 + ":"@ + x1;
    let r = p2 + ":"@ + x2;
    assert(l.len() == p1.len() + 1 + x1.len());
    assert(r.len() == p2.len() + 1 + x2.len());
    if x1.len() < x2.len() {
        let k = p1.len() as int;
        assert(l[k] == ':');
        assert(r[k] == x2[k - p2.len() - 1]);
        assert(false);
    } else if x2.len() < x1.len() {
        let k = p2.len() as int;
        assert(r[k] == ':');
        assert(l[k] == x1[k - p1.len() - 1]);
        assert(false);
    }
    assert(p1.len() == p2.len());
    assert forall|k: int| 0 <= k < x1.len() implies x1[k] == x2[k] by {
        assert(l[p1.len() + 1 + k] == x1[k]);
        assert(r[p2.len() + 1 + k] == x2[k]);
    }
    assert forall|k: int| 0 <= k < p1.len() implies p1[k] == p2[k] by {
        assert(l[k] == p1[k]);
        assert(r[k] == p2[k]);
    }
    assert(x1 =~= x2);
    assert(p1 =~= p2);
}

} // verus!
